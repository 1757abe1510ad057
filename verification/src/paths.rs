//! Windows paths as text. The bridge runs on Windows only, so these are the
//! rules of Windows paths on whatever machine the library is built: a drive or
//! share prefix, a root, and names that either slash separates.
use vstd::prelude::*;
use vstd::string::*;

use crate::text::{
    cat, chars_of, drop_empty, eq_ignore_case, lower, nonempty, slice_text, split,
    split_chars, starts_with, str_eq, strip_prefix, views, Separator,
};

verus! {

/// The parts of a path: its prefix (`C:` or `\\server\share`, empty where there
/// is none), whether it starts at a root, and its names.
pub struct PathParts {
    pub prefix: String,
    pub rooted: bool,
    pub names: Vec<String>,
}

/// The parts of a path as plain sequences.
#[verifier::ext_equal]
pub ghost struct Parts {
    pub prefix: Seq<char>,
    pub rooted: bool,
    pub names: Seq<Seq<char>>,
}

impl View for PathParts {
    type V = Parts;

    open spec fn view(&self) -> Parts {
        Parts { prefix: self.prefix@, rooted: self.rooted, names: views(self.names@) }
    }
}

pub open spec fn is_slash(c: char) -> bool {
    c == '/' || c == '\\'
}

pub open spec fn is_letter(c: char) -> bool {
    'a' <= c <= 'z' || 'A' <= c <= 'Z'
}

/// Whether the text begins with a drive such as `C:`.
pub open spec fn has_drive(s: Seq<char>) -> bool {
    s.len() >= 2 && is_letter(s[0]) && s[1] == ':'
}

/// The position of the first slash at or after `from`, or the end of the text.
pub open spec fn next_slash(s: Seq<char>, from: int) -> int
    decreases s.len() - from,
{
    if 0 <= from < s.len() && !is_slash(s[from]) {
        next_slash(s, from + 1)
    } else {
        from
    }
}

/// The length of the `\\server\share` that the text begins with, or zero.
pub open spec fn share_len(s: Seq<char>) -> int {
    if s.len() >= 2 && is_slash(s[0]) && is_slash(s[1]) {
        let server = next_slash(s, 2);
        let share = next_slash(s, server + 1);
        if server > 2 && server < s.len() && share > server + 1 {
            share
        } else {
            0
        }
    } else {
        0
    }
}

/// The length of the text's prefix.
pub open spec fn prefix_len(s: Seq<char>) -> int {
    if has_drive(s) {
        2
    } else {
        share_len(s)
    }
}

/// The names of a list, without those that stand for the place itself.
pub open spec fn without_dots(names: Seq<Seq<char>>) -> Seq<Seq<char>>
    decreases names.len(),
{
    if names.len() == 0 {
        names
    } else if names.last() == "."@ {
        without_dots(names.drop_last())
    } else {
        without_dots(names.drop_last()).push(names.last())
    }
}

/// The parts of the path that the text writes.
pub open spec fn parse(s: Seq<char>) -> Parts {
    let n = prefix_len(s);
    let rest = s.skip(n);
    Parts {
        prefix: s.take(n),
        rooted: (n > 0 && !has_drive(s)) || (rest.len() > 0 && is_slash(rest[0])),
        names: without_dots(nonempty(split(rest, Separator::AnySlash))),
    }
}

/// The text without the marker of a verbatim path.
pub open spec fn plain(s: Seq<char>) -> Seq<char> {
    if starts_with(s, "\\\\?\\UNC\\"@) {
        "\\\\"@ + s.skip("\\\\?\\UNC\\"@.len() as int)
    } else if starts_with(s, "\\\\?\\"@) {
        s.skip("\\\\?\\"@.len() as int)
    } else {
        s
    }
}

/// The path after one more name: `..` leads back, a name with a drive of its
/// own starts anew, and any other name is added.
pub open spec fn step(path: Parts, name: Seq<char>) -> Parts {
    if name == ".."@ {
        if path.names.len() > 0 {
            Parts { names: path.names.drop_last(), ..path }
        } else {
            path
        }
    } else if has_drive(name) {
        Parts {
            prefix: name.take(2),
            rooted: false,
            names: if name.len() == 2 || name.skip(2) == "."@ {
                Seq::empty()
            } else {
                seq![name.skip(2)]
            },
        }
    } else {
        Parts { names: path.names.push(name), ..path }
    }
}

/// The path that the names lead to from `start`.
pub open spec fn walk(start: Parts, names: Seq<Seq<char>>) -> Parts
    decreases names.len(),
{
    if names.len() == 0 {
        start
    } else {
        step(walk(start, names.drop_last()), names.last())
    }
}

/// The path without `.` and `..`.
pub open spec fn normal_parts(p: Parts) -> Parts {
    walk(Parts { names: Seq::empty(), ..p }, p.names)
}

/// The normal form of the path that the text writes.
pub open spec fn normal(s: Seq<char>) -> Parts {
    normal_parts(parse(plain(s)))
}

/// The components of a path, one text for each.
pub open spec fn components(p: Parts) -> Seq<Seq<char>> {
    (if p.prefix.len() > 0 {
        seq![p.prefix]
    } else {
        Seq::empty()
    }) + (if p.rooted {
        seq!["\\"@]
    } else {
        Seq::empty()
    }) + p.names
}

/// The names with a backslash between two of them.
pub open spec fn render_names(names: Seq<Seq<char>>) -> Seq<char>
    decreases names.len(),
{
    if names.len() == 0 {
        Seq::empty()
    } else if names.len() == 1 {
        names[0]
    } else {
        render_names(names.drop_last()) + "\\"@ + names.last()
    }
}

/// The text of a path.
pub open spec fn render(p: Parts) -> Seq<char> {
    p.prefix + (if p.rooted {
        "\\"@
    } else {
        Seq::empty()
    }) + render_names(p.names)
}

/// Whether the first of `path`'s components are those of `root`, the case of
/// ASCII letters aside.
pub open spec fn leads_with(path: Seq<Seq<char>>, root: Seq<Seq<char>>) -> bool {
    root.len() <= path.len() && forall|i: int|
        0 <= i < root.len() ==> lower(#[trigger] root[i]) == lower(path[i])
}

/// Whether the place that `path` names lies at or below `root`.
pub open spec fn within(path: Seq<char>, root: Seq<char>) -> bool {
    leads_with(components(normal(path)), components(normal(root)))
}

/// Whether the components of `root`, as they are written, are the first ones of
/// `path`.
pub open spec fn starts_at(path: Seq<char>, root: Seq<char>) -> bool {
    components(parse(root)).is_prefix_of(components(parse(path)))
}

/// Whether the path is absolute: it has a prefix and starts at a root.
pub open spec fn absolute(s: Seq<char>) -> bool {
    parse(s).prefix.len() > 0 && parse(s).rooted
}

/// The parts of `path` seen from `base`.
pub open spec fn joined_parts(base: Parts, path: Parts) -> Parts {
    if path.prefix.len() > 0 {
        path
    } else if path.rooted {
        Parts { prefix: base.prefix, ..path }
    } else {
        Parts { names: base.names + path.names, ..base }
    }
}

/// The normal form of `path` seen from the directory `base`.
pub open spec fn resolved(base: Seq<char>, path: Seq<char>) -> Parts {
    if absolute(path) {
        normal(path)
    } else {
        normal_parts(joined_parts(parse(plain(base)), parse(plain(path))))
    }
}

/// The last component of a path, if it is a name.
pub open spec fn last_name(p: Parts) -> Option<Seq<char>> {
    if p.names.len() > 0 && p.names.last() != ".."@ {
        Some(p.names.last())
    } else {
        None
    }
}

proof fn lemma_next_slash(s: Seq<char>, from: int)
    requires
        0 <= from <= s.len(),
    ensures
        from <= next_slash(s, from) <= s.len(),
    decreases s.len() - from,
{
    if from < s.len() && !is_slash(s[from]) {
        lemma_next_slash(s, from + 1);
    }
}

fn slash_from(s: &Vec<char>, from: usize) -> (r: usize)
    requires
        from <= s@.len(),
    ensures
        r == next_slash(s@, from as int),
        from <= r <= s@.len(),
{
    let mut i: usize = from;
    while i < s.len() && s[i] != '/' && s[i] != '\\'
        invariant
            from <= i <= s@.len(),
            next_slash(s@, from as int) == next_slash(s@, i as int),
        decreases s@.len() - i,
    {
        i += 1;
    }
    i
}

pub(crate) fn char_is_letter(c: char) -> (r: bool)
    ensures
        r == is_letter(c),
{
    ('a' <= c && c <= 'z') || ('A' <= c && c <= 'Z')
}

fn starts_with_drive(s: &Vec<char>) -> (r: bool)
    ensures
        r == has_drive(s@),
{
    s.len() >= 2 && char_is_letter(s[0]) && s[1] == ':'
}

fn prefix_end(s: &Vec<char>) -> (r: usize)
    ensures
        r == prefix_len(s@),
        r <= s@.len(),
{
    if starts_with_drive(s) {
        return 2;
    }
    if s.len() >= 2 && (s[0] == '/' || s[0] == '\\') && (s[1] == '/' || s[1] == '\\') {
        let server: usize = slash_from(s, 2);
        if server > 2 && server < s.len() {
            let share: usize = slash_from(s, server + 1);
            if share > server + 1 {
                return share;
            }
        }
    }
    0
}

fn drop_dots(names: Vec<String>) -> (r: Vec<String>)
    ensures
        views(r@) == without_dots(views(names@)),
{
    let mut r: Vec<String> = Vec::new();
    let mut i: usize = 0;
    assert(views(r@) =~= without_dots(views(names@).take(0)));
    while i < names.len()
        invariant
            i <= names@.len(),
            views(r@) == without_dots(views(names@).take(i as int)),
        decreases names@.len() - i,
    {
        assert(views(names@).take(i + 1).drop_last() =~= views(names@).take(i as int));
        assert(views(names@).take(i + 1).last() == names@[i as int]@);
        if !str_eq(names[i].as_str(), ".") {
            let ghost before = views(r@);
            r.push(names[i].clone());
            assert(views(r@) =~= before.push(names@[i as int]@));
        }
        i += 1;
    }
    assert(views(names@).take(i as int) =~= views(names@));
    r
}

/// The parts of the path that the text writes.
pub fn parse_path(text: &str) -> (r: PathParts)
    ensures
        r@ == parse(text@),
{
    let s = chars_of(text);
    let n: usize = prefix_end(&s);
    let prefix = slice_text(&s, 0, n);
    assert(prefix@ =~= s@.take(n as int));
    let drive = starts_with_drive(&s);
    let rooted = (n > 0 && !drive) || (s.len() > n && (s[n] == '/' || s[n] == '\\'));
    let names = drop_dots(drop_empty(split_chars(&s, n, Separator::AnySlash)));
    PathParts { prefix, rooted, names }
}

/// The text without the marker of a verbatim path.
pub fn plain_text(text: &str) -> (r: String)
    ensures
        r@ == plain(text@),
{
    match strip_prefix(text, "\\\\?\\UNC\\") {
        Some(rest) => cat("\\\\", rest.as_str()),
        None => match strip_prefix(text, "\\\\?\\") {
            Some(rest) => rest,
            None => text.to_owned(),
        },
    }
}

fn step_path(path: PathParts, name: &str) -> (r: PathParts)
    ensures
        r@ == step(path@, name@),
{
    let mut path = path;
    if str_eq(name, "..") {
        if path.names.len() > 0 {
            let ghost before = path.names@;
            let _ = path.names.pop();
            assert(views(path.names@) =~= views(before).drop_last());
        }
        return path;
    }
    let chars = chars_of(name);
    if starts_with_drive(&chars) {
        let prefix = slice_text(&chars, 0, 2);
        let rest = slice_text(&chars, 2, chars.len());
        assert(prefix@ =~= name@.take(2));
        assert(rest@ =~= name@.skip(2));
        let mut names: Vec<String> = Vec::new();
        if chars.len() != 2 && !str_eq(rest.as_str(), ".") {
            names.push(rest);
            assert(views(names@) =~= seq![name@.skip(2)]);
        } else {
            assert(views(names@) =~= Seq::<Seq<char>>::empty());
        }
        PathParts { prefix, rooted: false, names }
    } else {
        let ghost before = path.names@;
        path.names.push(name.to_owned());
        assert(views(path.names@) =~= views(before).push(name@));
        path
    }
}

/// The path without `.` and `..`.
pub fn normalize_parts(path: PathParts) -> (r: PathParts)
    ensures
        r@ == normal_parts(path@),
{
    let names = path.names;
    let mut r = PathParts { prefix: path.prefix, rooted: path.rooted, names: Vec::new() };
    assert(views(r.names@) =~= Seq::<Seq<char>>::empty());
    let ghost start = r@;
    let mut i: usize = 0;
    assert(r@ == walk(start, views(names@).take(0)));
    while i < names.len()
        invariant
            i <= names@.len(),
            r@ == walk(start, views(names@).take(i as int)),
        decreases names@.len() - i,
    {
        assert(views(names@).take(i + 1).drop_last() =~= views(names@).take(i as int));
        assert(views(names@).take(i + 1).last() == names@[i as int]@);
        r = step_path(r, names[i].as_str());
        i += 1;
    }
    assert(views(names@).take(i as int) =~= views(names@));
    r
}

/// The normal form of a path: without the verbatim marker, `.` and `..`.
pub fn normalize_path(text: &str) -> (r: PathParts)
    ensures
        r@ == normal(text@),
{
    normalize_parts(parse_path(plain_text(text).as_str()))
}

/// The text of a path.
pub fn path_text(path: &PathParts) -> (r: String)
    ensures
        r@ == render(path@),
{
    let mut r = path.prefix.clone();
    if path.rooted {
        r.append("\\");
    } else {
        assert(r@ + Seq::<char>::empty() =~= r@);
    }
    let ghost head = r@;
    let ghost names = views(path.names@);
    let mut i: usize = 0;
    assert(names.take(0) =~= Seq::<Seq<char>>::empty());
    assert(r@ =~= head + render_names(names.take(0)));
    while i < path.names.len()
        invariant
            i <= path.names@.len(),
            names == views(path.names@),
            r@ == head + render_names(names.take(i as int)),
        decreases path.names@.len() - i,
    {
        assert(names.take(i + 1).drop_last() =~= names.take(i as int));
        assert(names.take(i + 1).last() == path.names@[i as int]@);
        if i > 0 {
            r.append("\\");
        } else {
            assert(names.take(1)[0] == path.names@[0]@);
        }
        r.append(path.names[i].as_str());
        i += 1;
        assert(r@ =~= head + render_names(names.take(i as int)));
    }
    assert(names.take(i as int) =~= names);
    r
}

/// The components of a path, one text for each.
pub fn path_components(path: PathParts) -> (r: Vec<String>)
    ensures
        views(r@) == components(path@),
{
    let mut r: Vec<String> = Vec::new();
    assert(views(r@) =~= Seq::<Seq<char>>::empty());
    let ghost p = path@;
    if !path.prefix.as_str().is_empty() {
        r.push(path.prefix);
        assert(views(r@) =~= seq![p.prefix]);
    }
    let ghost one = views(r@);
    if path.rooted {
        r.push("\\".to_owned());
        assert(views(r@) =~= one + seq!["\\"@]);
    } else {
        assert(views(r@) =~= one + Seq::<Seq<char>>::empty());
    }
    let ghost two = views(r@);
    let mut names = path.names;
    let ghost n = names@;
    let ghost before = r@;
    r.append(&mut names);
    assert(r@ == before + n);
    assert(views(r@) =~= two + views(n));
    r
}

/// Whether the place that `path` names lies at or below `root`: the components
/// of `root`'s normal form are the first ones of `path`'s, the case of ASCII
/// letters aside.
pub fn path_is_within(path: &str, root: &str) -> (r: bool)
    ensures
        r == within(path@, root@),
{
    let p = path_components(normalize_path(path));
    let q = path_components(normalize_path(root));
    if q.len() > p.len() {
        return false;
    }
    let mut i: usize = 0;
    while i < q.len()
        invariant
            q@.len() <= p@.len(),
            i <= q@.len(),
            views(p@) == components(normal(path@)),
            views(q@) == components(normal(root@)),
            forall|j: int| 0 <= j < i ==> lower(#[trigger] views(q@)[j]) == lower(views(p@)[j]),
        decreases q@.len() - i,
    {
        if !eq_ignore_case(q[i].as_str(), p[i].as_str()) {
            assert(lower(views(q@)[i as int]) != lower(views(p@)[i as int]));
            return false;
        }
        i += 1;
    }
    true
}

/// Whether the components of `root`, as they are written, are the first ones of
/// `path`.
pub fn path_starts_at(path: &str, root: &str) -> (r: bool)
    ensures
        r == starts_at(path@, root@),
{
    let p = path_components(parse_path(path));
    let q = path_components(parse_path(root));
    let ghost a = components(parse(path@));
    let ghost b = components(parse(root@));
    if q.len() > p.len() {
        return false;
    }
    let mut i: usize = 0;
    while i < q.len()
        invariant
            q@.len() <= p@.len(),
            i <= q@.len(),
            a == components(parse(path@)),
            b == components(parse(root@)),
            views(p@) == a,
            views(q@) == b,
            forall|j: int| 0 <= j < i ==> #[trigger] b[j] == a[j],
        decreases q@.len() - i,
    {
        assert(b[i as int] == q@[i as int]@ && a[i as int] == p@[i as int]@);
        if !str_eq(q[i].as_str(), p[i].as_str()) {
            assert(b[i as int] != a.subrange(0, b.len() as int)[i as int]);
            return false;
        }
        i += 1;
    }
    assert(b =~= a.subrange(0, b.len() as int));
    true
}

/// Whether the path is absolute: it has a prefix and starts at a root.
pub fn is_absolute(text: &str) -> (r: bool)
    ensures
        r == absolute(text@),
{
    let p = parse_path(text);
    !p.prefix.as_str().is_empty() && p.rooted
}

/// The normal form of `value` seen from the directory `cwd`.
pub fn resolve_path(cwd: &str, value: &str) -> (r: PathParts)
    ensures
        r@ == resolved(cwd@, value@),
{
    if is_absolute(value) {
        return normalize_path(value);
    }
    let base = parse_path(plain_text(cwd).as_str());
    let path = parse_path(plain_text(value).as_str());
    let ghost b = base@;
    let ghost p = path@;
    if !path.prefix.as_str().is_empty() {
        normalize_parts(path)
    } else if path.rooted {
        normalize_parts(PathParts { prefix: base.prefix, rooted: true, names: path.names })
    } else {
        let mut names = base.names;
        let mut more = path.names;
        let ghost x = names@;
        let ghost y = more@;
        names.append(&mut more);
        assert(names@ == x + y);
        assert(views(names@) =~= b.names + p.names);
        normalize_parts(PathParts { prefix: base.prefix, rooted: base.rooted, names })
    }
}

/// The last component of a path, if it is a name.
pub fn file_name(path: &PathParts) -> (r: Option<String>)
    ensures
        crate::text::opt_view(r) == last_name(path@),
{
    let n: usize = path.names.len();
    if n > 0 && !str_eq(path.names[n - 1].as_str(), "..") {
        Some(path.names[n - 1].clone())
    } else {
        None
    }
}

/// `base` followed by one more name.
pub fn child_path(base: &str, name: &str) -> (r: String)
    ensures
        r@ == render(
            Parts { names: parse(base@).names.push(name@), ..parse(base@) },
        ),
{
    let mut p = parse_path(base);
    let ghost before = p.names@;
    p.names.push(name.to_owned());
    assert(views(p.names@) =~= views(before).push(name@));
    path_text(&p)
}

// ---------------------------------------------------------------------------
// Laws

/// Every path lies within itself.
pub proof fn within_is_reflexive(path: Seq<char>)
    ensures
        within(path, path),
{
}

/// What lies within a place that lies within `root` lies within `root`.
pub proof fn within_is_transitive(path: Seq<char>, middle: Seq<char>, root: Seq<char>)
    requires
        within(path, middle),
        within(middle, root),
    ensures
        within(path, root),
{
    let p = components(normal(path));
    let m = components(normal(middle));
    let q = components(normal(root));
    assert forall|i: int| 0 <= i < q.len() implies lower(#[trigger] q[i]) == lower(p[i]) by {
        assert(lower(q[i]) == lower(m[i]));
        assert(lower(m[i]) == lower(p[i]));
    }
}

/// A verbatim path and the plain path that it marks have one normal form, so
/// they lie within the same places.
pub proof fn verbatim_marker_is_ignored(path: Seq<char>, root: Seq<char>)
    requires
        plain(plain(path)) == plain(path),
    ensures
        normal(plain(path)) == normal(path),
        within(plain(path), root) == within(path, root),
{
}

/// Names that neither lead back nor carry a drive are kept by the normal form.
pub proof fn normal_keeps_plain_names(p: Parts)
    requires
        forall|i: int|
            0 <= i < p.names.len() ==> #[trigger] p.names[i] != ".."@ && !has_drive(p.names[i]),
    ensures
        normal_parts(p) == p,
{
    lemma_walk_plain(Parts { names: Seq::empty(), ..p }, p.names);
    assert(Seq::<Seq<char>>::empty() + p.names =~= p.names);
}

proof fn lemma_walk_plain(start: Parts, names: Seq<Seq<char>>)
    requires
        forall|i: int|
            0 <= i < names.len() ==> #[trigger] names[i] != ".."@ && !has_drive(names[i]),
    ensures
        walk(start, names) == (Parts { names: start.names + names, ..start }),
    decreases names.len(),
{
    if names.len() == 0 {
        assert(start.names + names =~= start.names);
    } else {
        lemma_walk_plain(start, names.drop_last());
        assert(start.names + names =~= (start.names + names.drop_last()).push(names.last()));
    }
}

// ---------------------------------------------------------------------------
// What paths come to

/// A name and a step back cancel each other out; a step back from the root leads
/// nowhere.
pub proof fn steps_back_undo_names(start: Parts, names: Seq<Seq<char>>, name: Seq<char>)
    requires
        name != ".."@,
        !has_drive(name),
    ensures
        walk(start, names.push(name).push(".."@)) == walk(start, names),
        walk(start, names.push(name)).names == walk(start, names).names.push(name),
        walk(start, names).names.len() == 0 ==> walk(start, names.push(".."@)) == walk(start, names),
{
    let one = names.push(name);
    let two = one.push(".."@);
    assert(one.drop_last() =~= names);
    assert(two.drop_last() =~= one);
    assert(names.push(".."@).drop_last() =~= names);
    let before = walk(start, names);
    let after = walk(start, one);
    assert(after == step(before, name));
    assert(walk(start, two) == step(after, ".."@));
    assert(after.names.drop_last() =~= before.names);
}

/// A path in its normal form has no steps back, as long as no name brings a drive of its
/// own.
pub proof fn normal_paths_have_no_steps_back(p: Parts)
    requires
        forall|i: int| 0 <= i < p.names.len() ==> !has_drive(#[trigger] p.names[i]),
    ensures
        forall|i: int|
            0 <= i < normal_parts(p).names.len() ==> #[trigger] normal_parts(p).names[i] != ".."@,
        normal_parts(p).prefix == p.prefix,
        normal_parts(p).rooted == p.rooted,
        normal_parts(p).names.len() <= p.names.len(),
{
    lemma_no_steps_back(Parts { names: Seq::empty(), ..p }, p.names);
}

proof fn lemma_no_steps_back(start: Parts, names: Seq<Seq<char>>)
    requires
        start.names.len() == 0,
        forall|i: int| 0 <= i < names.len() ==> !has_drive(#[trigger] names[i]),
    ensures
        forall|i: int|
            0 <= i < walk(start, names).names.len() ==> #[trigger] walk(start, names).names[i]
                != ".."@,
        walk(start, names).prefix == start.prefix,
        walk(start, names).rooted == start.rooted,
        walk(start, names).names.len() <= names.len(),
    decreases names.len(),
{
    if names.len() > 0 {
        let rest = names.drop_last();
        assert forall|i: int| 0 <= i < rest.len() implies !has_drive(#[trigger] rest[i]) by {
            assert(rest[i] == names[i]);
        }
        lemma_no_steps_back(start, rest);
        assert(!has_drive(names[names.len() - 1]));
    }
}

/// A path is at or below another where it has its prefix and its names, whatever the case
/// of their letters, and no path that is shorter, or that differs in one of them, is.
pub proof fn paths_below_begin_alike(path: Seq<char>, root: Seq<char>)
    ensures
        ({
            let p = normal(path);
            let r = normal(root);
            &&& (p.prefix == r.prefix && p.rooted == r.rooted && r.names.len() <= p.names.len()
                && forall|i: int|
                0 <= i < r.names.len() ==> lower(#[trigger] r.names[i]) == lower(p.names[i]))
                ==> within(path, root)
            &&& p.prefix == r.prefix && p.rooted == r.rooted && p.names.len() < r.names.len()
                ==> !within(path, root)
            &&& (p.prefix == r.prefix && p.rooted == r.rooted && exists|i: int|
                0 <= i < r.names.len() && i < p.names.len() && lower(#[trigger] r.names[i])
                    != lower(p.names[i])) ==> !within(path, root)
            &&& p.prefix.len() > 0 && r.prefix.len() > 0 && lower(p.prefix) != lower(r.prefix)
                ==> !within(path, root)
        }),
{
    let p = normal(path);
    let r = normal(root);
    let cp = components(p);
    let cr = components(r);
    let head = if r.prefix.len() > 0 {
        1int
    } else {
        0int
    } + if r.rooted {
        1int
    } else {
        0int
    };
    if p.prefix == r.prefix && p.rooted == r.rooted {
        assert forall|i: int| 0 <= i < r.names.len() implies #[trigger] cr[head + i]
            == r.names[i] by {}
        assert forall|i: int| 0 <= i < p.names.len() implies #[trigger] cp[head + i]
            == p.names[i] by {}
        if r.names.len() <= p.names.len() && (forall|i: int|
            0 <= i < r.names.len() ==> lower(#[trigger] r.names[i]) == lower(p.names[i])) {
            assert forall|i: int| 0 <= i < cr.len() implies lower(#[trigger] cr[i]) == lower(
                cp[i],
            ) by {
                if i >= head {
                    assert(cr[head + (i - head)] == r.names[i - head]);
                    assert(cp[head + (i - head)] == p.names[i - head]);
                } else {
                    assert(cr[i] == cp[i]);
                }
            }
        }
        if exists|i: int|
            0 <= i < r.names.len() && i < p.names.len() && lower(#[trigger] r.names[i]) != lower(
                p.names[i],
            ) {
            let i = choose|i: int|
                0 <= i < r.names.len() && i < p.names.len() && lower(#[trigger] r.names[i])
                    != lower(p.names[i]);
            assert(cr[head + i] == r.names[i]);
            assert(cp[head + i] == p.names[i]);
        }
    }
    if p.prefix.len() > 0 && r.prefix.len() > 0 && lower(p.prefix) != lower(r.prefix) {
        assert(cr[0] == r.prefix);
        assert(cp[0] == p.prefix);
    }
}

/// A path with a drive is absolute just where a slash follows the drive; a path without a
/// drive that does not begin with two slashes is not absolute.
pub proof fn absolute_paths_begin_at_a_drive_or_share(s: Seq<char>)
    ensures
        s.len() >= 2 && (('a' <= s[0] && s[0] <= 'z') || ('A' <= s[0] && s[0] <= 'Z')) && s[1] == ':'
            ==> (absolute(s) <==> s.len() >= 3 && (s[2] == '/' || s[2] == '\\')),
        !(s.len() >= 2 && (('a' <= s[0] && s[0] <= 'z') || ('A' <= s[0] && s[0] <= 'Z')) && s[1]
            == ':') && !(s.len() >= 2 && (s[0] == '/' || s[0] == '\\') && (s[1] == '/' || s[1]
            == '\\')) ==> !absolute(s),
{
    if has_drive(s) {
        assert(s.skip(2).len() == s.len() - 2);
        if s.len() >= 3 {
            assert(s.skip(2)[0] == s[2]);
        }
    } else if !(s.len() >= 2 && is_slash(s[0]) && is_slash(s[1])) {
        assert(prefix_len(s) == 0);
        assert(s.take(0).len() == 0);
    }
}

/// An absolute path means the same seen from any directory; any other path without a
/// prefix or a root leads on from the directory that it is seen from.
pub proof fn relative_paths_lead_on(base: Seq<char>, other: Seq<char>, path: Seq<char>)
    ensures
        absolute(path) ==> resolved(base, path) == resolved(other, path) && resolved(base, path)
            == normal(path),
        !absolute(path) && parse(plain(path)).prefix.len() == 0 && !parse(plain(path)).rooted
            ==> resolved(base, path) == walk(normal(base), parse(plain(path)).names),
{
    let b = parse(plain(base));
    let p = parse(plain(path));
    if !absolute(path) && p.prefix.len() == 0 && !p.rooted {
        lemma_walk_on(Parts { names: Seq::empty(), ..b }, b.names, p.names);
    }
}

proof fn lemma_walk_on(start: Parts, one: Seq<Seq<char>>, two: Seq<Seq<char>>)
    ensures
        walk(start, one + two) == walk(walk(start, one), two),
    decreases two.len(),
{
    if two.len() == 0 {
        assert(one + two =~= one);
    } else {
        assert((one + two).drop_last() =~= one + two.drop_last());
        lemma_walk_on(start, one, two.drop_last());
    }
}

/// Names that stand for the place itself are left out, and no others.
pub proof fn only_dots_are_left_out(names: Seq<Seq<char>>, name: Seq<char>)
    ensures
        name != "."@ ==> without_dots(names.push(name)) == without_dots(names).push(name),
        without_dots(names.push("."@)) == without_dots(names),
        forall|i: int| 0 <= i < without_dots(names).len() ==> #[trigger] without_dots(names)[i] != "."@,
    decreases names.len(),
{
    assert(names.push(name).drop_last() =~= names);
    assert(names.push("."@).drop_last() =~= names);
    if names.len() > 0 {
        only_dots_are_left_out(names.drop_last(), name);
    }
}

} // verus!
