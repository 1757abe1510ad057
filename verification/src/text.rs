//! Text primitives: the operations on strings that the rest of the library is
//! built from, each stated over the sequence of characters of the string.
use vstd::prelude::*;
use vstd::string::*;

verus! {

broadcast use vstd::string::group_string_axioms;

/// `String::push` appends the character to the end of the string.
pub assume_specification[ String::push ](s: &mut String, c: char)
    ensures
        final(s)@ == old(s)@.push(c),
;

/// `str`'s `==` holds exactly when both strings hold the same characters.
pub assume_specification[ <str as PartialEq>::eq ](a: &str, b: &str) -> (r: bool)
    ensures
        r == (a@ == b@),
;

/// Whether two strings hold the same characters.
pub fn str_eq(a: &str, b: &str) -> (r: bool)
    ensures
        r == (a@ == b@),
{
    a.eq(b)
}

/// The characters of each string of a list.
pub open spec fn views(list: Seq<String>) -> Seq<Seq<char>> {
    list.map_values(|s: String| s@)
}

/// The characters of an optional string.
pub open spec fn opt_view(value: Option<String>) -> Option<Seq<char>> {
    match value {
        Some(s) => Some(s@),
        None => None,
    }
}

/// The characters of an optional string slice.
pub open spec fn opt_str_view(value: Option<&str>) -> Option<Seq<char>> {
    match value {
        Some(s) => Some(s@),
        None => None,
    }
}

/// The characters of a string, one by one.
pub fn chars_of(s: &str) -> (r: Vec<char>)
    ensures
        r@ == s@,
{
    let mut r: Vec<char> = Vec::new();
    for c in it: s.chars()
        invariant
            it.seq() == s@,
            r@ == s@.take(it.index() as int),
    {
        r.push(c);
        assert(s@.take(it.index() as int + 1) =~= s@.take(it.index() as int).push(c));
    }
    assert(r@ =~= s@);
    r
}

/// The string made of the given characters.
pub fn text_of(chars: &Vec<char>) -> (r: String)
    ensures
        r@ == chars@,
{
    slice_text(chars, 0, chars.len())
}

/// The string made of the characters from `from` up to `to`.
pub fn slice_text(chars: &Vec<char>, from: usize, to: usize) -> (r: String)
    requires
        from <= to <= chars@.len(),
    ensures
        r@ == chars@.subrange(from as int, to as int),
{
    let mut r = String::new();
    let mut i: usize = from;
    while i < to
        invariant
            from <= i <= to <= chars@.len(),
            r@ == chars@.subrange(from as int, i as int),
        decreases to - i,
    {
        r.push(chars[i]);
        i += 1;
        assert(chars@.subrange(from as int, i as int) =~= chars@.subrange(
            from as int,
            i - 1,
        ).push(chars@[i - 1]));
    }
    r
}

/// `a` followed by `b`.
pub fn cat(a: &str, b: &str) -> (r: String)
    ensures
        r@ == a@ + b@,
{
    let mut r = a.to_owned();
    r.append(b);
    r
}

/// `a` followed by `b` and `c`.
pub fn cat3(a: &str, b: &str, c: &str) -> (r: String)
    ensures
        r@ == a@ + b@ + c@,
{
    let mut r = a.to_owned();
    r.append(b);
    r.append(c);
    r
}

/// The owned form of an optional string slice.
pub fn owned(value: Option<&str>) -> (r: Option<String>)
    ensures
        opt_view(r) == opt_str_view(value),
{
    match value {
        Some(s) => Some(s.to_owned()),
        None => None,
    }
}

// ---------------------------------------------------------------------------
// Character classes

/// Unicode's `White_Space` property.
pub open spec fn is_white(c: char) -> bool {
    ||| '\u{9}' <= c <= '\u{d}'
    ||| c == ' '
    ||| c == '\u{85}'
    ||| c == '\u{a0}'
    ||| c == '\u{1680}'
    ||| '\u{2000}' <= c <= '\u{200a}'
    ||| c == '\u{2028}'
    ||| c == '\u{2029}'
    ||| c == '\u{202f}'
    ||| c == '\u{205f}'
    ||| c == '\u{3000}'
}

pub fn char_is_white(c: char) -> (r: bool)
    ensures
        r == is_white(c),
{
    ('\u{9}' <= c && c <= '\u{d}') || c == ' ' || c == '\u{85}' || c == '\u{a0}' || c
        == '\u{1680}' || ('\u{2000}' <= c && c <= '\u{200a}') || c == '\u{2028}' || c == '\u{2029}'
        || c == '\u{202f}' || c == '\u{205f}' || c == '\u{3000}'
}

/// Unicode's general category `Cc`.
pub open spec fn is_control(c: char) -> bool {
    c <= '\u{1f}' || '\u{7f}' <= c <= '\u{9f}'
}

pub fn char_is_control(c: char) -> (r: bool)
    ensures
        r == is_control(c),
{
    c <= '\u{1f}' || ('\u{7f}' <= c && c <= '\u{9f}')
}

pub open spec fn is_digit(c: char) -> bool {
    '0' <= c <= '9'
}

pub open spec fn is_upper(c: char) -> bool {
    'A' <= c <= 'Z'
}

pub open spec fn is_lower(c: char) -> bool {
    'a' <= c <= 'z'
}

/// The ASCII letters and digits.
pub open spec fn is_alphanumeric(c: char) -> bool {
    is_digit(c) || is_upper(c) || is_lower(c)
}

pub fn char_is_alphanumeric(c: char) -> (r: bool)
    ensures
        r == is_alphanumeric(c),
{
    ('0' <= c && c <= '9') || ('A' <= c && c <= 'Z') || ('a' <= c && c <= 'z')
}

/// ASCII lower case of a character; every other character is kept.
pub open spec fn lower_char(c: char) -> char {
    if is_upper(c) {
        ((c as u32) + 32) as char
    } else {
        c
    }
}

/// ASCII upper case of a character; every other character is kept.
pub open spec fn upper_char(c: char) -> char {
    if is_lower(c) {
        ((c as u32) - 32) as char
    } else {
        c
    }
}

pub fn to_lower_char(c: char) -> (r: char)
    ensures
        r == lower_char(c),
{
    if 'A' <= c && c <= 'Z' {
        ((c as u8) + 32) as char
    } else {
        c
    }
}

pub fn to_upper_char(c: char) -> (r: char)
    ensures
        r == upper_char(c),
{
    if 'a' <= c && c <= 'z' {
        ((c as u8) - 32) as char
    } else {
        c
    }
}

pub open spec fn lower(s: Seq<char>) -> Seq<char> {
    s.map_values(|c: char| lower_char(c))
}

pub open spec fn upper(s: Seq<char>) -> Seq<char> {
    s.map_values(|c: char| upper_char(c))
}

/// The text with each ASCII capital replaced by its small letter.
pub fn to_lower(s: &str) -> (r: String)
    ensures
        r@ == lower(s@),
{
    let chars = chars_of(s);
    let mut r = String::new();
    let mut i: usize = 0;
    while i < chars.len()
        invariant
            i <= chars@.len(),
            r@ == lower(chars@.take(i as int)),
        decreases chars@.len() - i,
    {
        r.push(to_lower_char(chars[i]));
        i += 1;
        assert(lower(chars@.take(i as int)) =~= lower(chars@.take(i - 1)).push(
            lower_char(chars@[i - 1]),
        ));
    }
    assert(chars@.take(chars@.len() as int) =~= chars@);
    r
}

/// The text with each ASCII small letter replaced by its capital.
pub fn to_upper(s: &str) -> (r: String)
    ensures
        r@ == upper(s@),
{
    let chars = chars_of(s);
    let mut r = String::new();
    let mut i: usize = 0;
    while i < chars.len()
        invariant
            i <= chars@.len(),
            r@ == upper(chars@.take(i as int)),
        decreases chars@.len() - i,
    {
        r.push(to_upper_char(chars[i]));
        i += 1;
        assert(upper(chars@.take(i as int)) =~= upper(chars@.take(i - 1)).push(
            upper_char(chars@[i - 1]),
        ));
    }
    assert(chars@.take(chars@.len() as int) =~= chars@);
    r
}

/// Whether two texts are equal but for the case of ASCII letters.
pub fn eq_ignore_case(a: &str, b: &str) -> (r: bool)
    ensures
        r == (lower(a@) == lower(b@)),
{
    let x = to_lower(a);
    let y = to_lower(b);
    x == y
}

/// Lower and upper case keep the text's length and are idempotent.
pub proof fn lower_is_idempotent(s: Seq<char>)
    ensures
        lower(lower(s)) == lower(s),
        lower(s).len() == s.len(),
{
    assert forall|c: char| lower_char(#[trigger] lower_char(c)) == lower_char(c) by {
        if is_upper(c) {
            assert(97 <= (lower_char(c) as u32) <= 122);
        }
    }
    assert(lower(lower(s)) =~= lower(s));
}

// ---------------------------------------------------------------------------
// Trimming

/// `s` without its leading white space.
pub open spec fn trim_start(s: Seq<char>) -> Seq<char>
    decreases s.len(),
{
    if s.len() > 0 && is_white(s[0]) {
        trim_start(s.skip(1))
    } else {
        s
    }
}

/// `s` without its trailing white space.
pub open spec fn trim_end(s: Seq<char>) -> Seq<char>
    decreases s.len(),
{
    if s.len() > 0 && is_white(s.last()) {
        trim_end(s.drop_last())
    } else {
        s
    }
}

/// `s` without the white space at both ends.
pub open spec fn trim(s: Seq<char>) -> Seq<char> {
    trim_end(trim_start(s))
}

/// The text without the white space at both ends.
pub fn trimmed(s: &str) -> (r: String)
    ensures
        r@ == trim(s@),
{
    let chars = chars_of(s);
    let n: usize = chars.len();
    let mut from: usize = 0;
    assert(chars@.skip(0) =~= chars@);
    while from < n && char_is_white(chars[from])
        invariant
            from <= n,
            n == chars@.len(),
            trim_start(chars@) == trim_start(chars@.skip(from as int)),
        decreases n - from,
    {
        assert(chars@.skip(from as int).skip(1) =~= chars@.skip(from + 1));
        from += 1;
    }
    let mut to: usize = n;
    assert(chars@.skip(from as int) =~= chars@.subrange(from as int, to as int));
    while from < to && char_is_white(chars[to - 1])
        invariant
            from <= to <= n,
            n == chars@.len(),
            trim(chars@) == trim_end(chars@.subrange(from as int, to as int)),
        decreases to - from,
    {
        assert(chars@.subrange(from as int, to as int).drop_last() =~= chars@.subrange(
            from as int,
            to - 1,
        ));
        to -= 1;
    }
    slice_text(&chars, from, to)
}

/// Whether nothing but white space is in the text.
pub fn is_blank(s: &str) -> (r: bool)
    ensures
        r == (trim(s@).len() == 0),
{
    let t = trimmed(s);
    t.as_str().is_empty()
}

/// A trimmed text neither starts nor ends with white space, and trimming it
/// again changes nothing.
pub proof fn trim_is_idempotent(s: Seq<char>)
    ensures
        trim(trim(s)) == trim(s),
        trim(s).len() <= s.len(),
        trim(s).len() > 0 ==> !is_white(trim(s)[0]) && !is_white(trim(s).last()),
{
    lemma_trim_start(s);
    lemma_trim_end(trim_start(s));
}

proof fn lemma_trim_start(s: Seq<char>)
    ensures
        trim_start(s).len() <= s.len(),
        trim_start(s).len() > 0 ==> !is_white(trim_start(s)[0]),
    decreases s.len(),
{
    if s.len() > 0 && is_white(s[0]) {
        lemma_trim_start(s.skip(1));
    }
}

proof fn lemma_trim_end(s: Seq<char>)
    ensures
        trim_end(s).len() <= s.len(),
        trim_end(s).len() > 0 ==> !is_white(trim_end(s).last()) && trim_end(s)[0] == s[0],
    decreases s.len(),
{
    if s.len() > 0 && is_white(s.last()) {
        lemma_trim_end(s.drop_last());
    }
}

// ---------------------------------------------------------------------------
// Searching

/// Whether `pattern` occurs in `s` at position `i`.
pub open spec fn occurs_at(s: Seq<char>, pattern: Seq<char>, i: int) -> bool {
    0 <= i && i + pattern.len() <= s.len() && s.subrange(i, i + pattern.len()) == pattern
}

/// Whether `pattern` occurs in `s`.
pub open spec fn contains(s: Seq<char>, pattern: Seq<char>) -> bool {
    exists|i: int| occurs_at(s, pattern, i)
}

/// Whether `s` begins with `pattern`.
pub open spec fn starts_with(s: Seq<char>, pattern: Seq<char>) -> bool {
    occurs_at(s, pattern, 0)
}

/// Whether `pattern` stands in `s` at position `at`.
pub fn matches_at(s: &Vec<char>, pattern: &Vec<char>, at: usize) -> (r: bool)
    requires
        at <= s@.len(),
    ensures
        r == occurs_at(s@, pattern@, at as int),
{
    if pattern.len() > s.len() - at {
        return false;
    }
    let mut i: usize = 0;
    while i < pattern.len()
        invariant
            at + pattern.len() <= s.len(),
            i <= pattern@.len(),
            forall|j: int| 0 <= j < i ==> s@[at + j] == pattern@[j],
        decreases pattern@.len() - i,
    {
        if s[at + i] != pattern[i] {
            assert(s@.subrange(at as int, at + pattern@.len())[i as int] != pattern@[i as int]);
            return false;
        }
        i += 1;
    }
    assert(s@.subrange(at as int, at + pattern@.len()) =~= pattern@);
    true
}

/// The first position at or after `from` where `pattern` stands in `s`.
pub fn find_from(s: &Vec<char>, pattern: &Vec<char>, from: usize) -> (r: Option<usize>)
    requires
        from <= s@.len(),
    ensures
        match r {
            Some(i) => from <= i && i + pattern@.len() <= s@.len() && occurs_at(
                s@,
                pattern@,
                i as int,
            ) && forall|j: int| from <= j < i ==> !occurs_at(s@, pattern@, j),
            None => forall|j: int| from <= j ==> !occurs_at(s@, pattern@, j),
        },
{
    let mut i: usize = from;
    while i < s.len()
        invariant
            from <= i <= s@.len(),
            forall|j: int| from <= j < i ==> !occurs_at(s@, pattern@, j),
        decreases s@.len() - i,
    {
        if matches_at(s, pattern, i) {
            return Some(i);
        }
        i += 1;
    }
    if matches_at(s, pattern, i) {
        return Some(i);
    }
    None
}

/// Whether the text holds `pattern`.
pub fn text_contains(s: &str, pattern: &str) -> (r: bool)
    ensures
        r == contains(s@, pattern@),
{
    let a = chars_of(s);
    let b = chars_of(pattern);
    match find_from(&a, &b, 0) {
        Some(_) => true,
        None => false,
    }
}

/// Whether the text begins with `pattern`.
pub fn text_starts_with(s: &str, pattern: &str) -> (r: bool)
    ensures
        r == starts_with(s@, pattern@),
{
    matches_at(&chars_of(s), &chars_of(pattern), 0)
}

/// What follows `pattern` in a text that begins with it.
pub fn strip_prefix(s: &str, pattern: &str) -> (r: Option<String>)
    ensures
        opt_view(r) == (if starts_with(s@, pattern@) {
            Some(s@.skip(pattern@.len() as int))
        } else {
            None
        }),
{
    let a = chars_of(s);
    let b = chars_of(pattern);
    if matches_at(&a, &b, 0) {
        let r = slice_text(&a, b.len(), a.len());
        assert(r@ =~= s@.skip(pattern@.len() as int));
        Some(r)
    } else {
        None
    }
}

// ---------------------------------------------------------------------------
// Splitting and joining

/// Which characters part a text into pieces.
#[derive(Clone, Copy, Debug, PartialEq, Eq)]
pub enum Separator {
    Slash,
    AnySlash,
    Newline,
    White,
    Space,
    Comma,
}

impl Separator {
    pub open spec fn splits(self, c: char) -> bool {
        match self {
            Separator::Slash => c == '/',
            Separator::AnySlash => c == '/' || c == '\\',
            Separator::Newline => c == '\n',
            Separator::White => is_white(c),
            Separator::Space => c == ' ',
            Separator::Comma => c == ',',
        }
    }

    pub fn is_separator(self, c: char) -> (r: bool)
        ensures
            r == self.splits(c),
    {
        match self {
            Separator::Slash => c == '/',
            Separator::AnySlash => c == '/' || c == '\\',
            Separator::Newline => c == '\n',
            Separator::White => char_is_white(c),
            Separator::Space => c == ' ',
            Separator::Comma => c == ',',
        }
    }
}

/// The pieces between the separators of `s`, empty ones included: one more
/// piece than there are separators.
pub open spec fn split(s: Seq<char>, sep: Separator) -> Seq<Seq<char>>
    decreases s.len(),
{
    if s.len() == 0 {
        seq![Seq::empty()]
    } else {
        let before = split(s.drop_last(), sep);
        if sep.splits(s.last()) {
            before.push(Seq::empty())
        } else {
            before.drop_last().push(before.last().push(s.last()))
        }
    }
}

/// The texts that are not empty, in their order.
pub open spec fn nonempty(parts: Seq<Seq<char>>) -> Seq<Seq<char>>
    decreases parts.len(),
{
    if parts.len() == 0 {
        parts
    } else if parts.last().len() == 0 {
        nonempty(parts.drop_last())
    } else {
        nonempty(parts.drop_last()).push(parts.last())
    }
}

/// The texts in their order, `sep` between two of them.
pub open spec fn join(parts: Seq<Seq<char>>, sep: Seq<char>) -> Seq<char>
    decreases parts.len(),
{
    if parts.len() == 0 {
        Seq::empty()
    } else if parts.len() == 1 {
        parts[0]
    } else {
        join(parts.drop_last(), sep) + sep + parts.last()
    }
}

pub proof fn lemma_split_nonempty(s: Seq<char>, sep: Separator)
    ensures
        split(s, sep).len() >= 1,
    decreases s.len(),
{
    if s.len() > 0 {
        lemma_split_nonempty(s.drop_last(), sep);
    }
}

/// The pieces of `chars` from `from` on.
pub fn split_chars(chars: &Vec<char>, from: usize, sep: Separator) -> (r: Vec<String>)
    requires
        from <= chars@.len(),
    ensures
        views(r@) == split(chars@.skip(from as int), sep),
{
    let ghost s = chars@.skip(from as int);
    let mut parts: Vec<String> = Vec::new();
    let mut current = String::new();
    let mut i: usize = from;
    assert(views(parts@).push(current@) =~= split(s.take(0), sep));
    while i < chars.len()
        invariant
            from <= i <= chars@.len(),
            s == chars@.skip(from as int),
            views(parts@).push(current@) == split(s.take(i - from), sep),
        decreases chars@.len() - i,
    {
        let c = chars[i];
        let ghost before = views(parts@).push(current@);
        assert(s.take(i - from + 1).drop_last() =~= s.take(i - from));
        assert(s.take(i - from + 1).last() == c);
        if sep.is_separator(c) {
            parts.push(current);
            current = String::new();
            assert(views(parts@) =~= before);
            assert(current@ =~= Seq::<char>::empty());
        } else {
            assert(before.drop_last() =~= views(parts@));
            current.push(c);
        }
        i += 1;
    }
    assert(s.take(i - from) =~= s);
    let ghost before = views(parts@).push(current@);
    parts.push(current);
    assert(views(parts@) =~= before);
    parts
}

/// The pieces of a text between its separators.
pub fn split_text(s: &str, sep: Separator) -> (r: Vec<String>)
    ensures
        views(r@) == split(s@, sep),
{
    let chars = chars_of(s);
    assert(chars@.skip(0) =~= chars@);
    split_chars(&chars, 0, sep)
}

/// The texts of a list that are not empty.
pub fn drop_empty(parts: Vec<String>) -> (r: Vec<String>)
    ensures
        views(r@) == nonempty(views(parts@)),
{
    let mut r: Vec<String> = Vec::new();
    let mut i: usize = 0;
    assert(views(r@) =~= nonempty(views(parts@).take(0)));
    while i < parts.len()
        invariant
            i <= parts@.len(),
            views(r@) == nonempty(views(parts@).take(i as int)),
        decreases parts@.len() - i,
    {
        assert(views(parts@).take(i + 1).drop_last() =~= views(parts@).take(i as int));
        assert(views(parts@).take(i + 1).last() == parts@[i as int]@);
        if !parts[i].as_str().is_empty() {
            let ghost before = views(r@);
            r.push(parts[i].clone());
            assert(views(r@) =~= before.push(parts@[i as int]@));
        }
        i += 1;
    }
    assert(views(parts@).take(i as int) =~= views(parts@));
    r
}

/// The words of a text: its pieces between white space.
pub fn words(s: &str) -> (r: Vec<String>)
    ensures
        views(r@) == nonempty(split(s@, Separator::White)),
{
    drop_empty(split_text(s, Separator::White))
}

/// The texts of a list, `sep` between two of them.
pub fn joined(parts: &Vec<String>, sep: &str) -> (r: String)
    ensures
        r@ == join(views(parts@), sep@),
{
    let mut r = String::new();
    let mut i: usize = 0;
    while i < parts.len()
        invariant
            i <= parts@.len(),
            r@ == join(views(parts@).take(i as int), sep@),
        decreases parts@.len() - i,
    {
        assert(views(parts@).take(i + 1).drop_last() =~= views(parts@).take(i as int));
        assert(views(parts@).take(i + 1).last() == parts@[i as int]@);
        let ghost before = r@;
        if i > 0 {
            r.append(sep);
        }
        r.append(parts[i].as_str());
        if i == 0 {
            assert(r@ =~= parts@[0]@);
        }
        i += 1;
    }
    assert(views(parts@).take(i as int) =~= views(parts@));
    r
}

/// A line without the carriage return that ends it.
pub open spec fn drop_return(s: Seq<char>) -> Seq<char> {
    if s.len() > 0 && s.last() == '\r' {
        s.drop_last()
    } else {
        s
    }
}

/// The lines of a text: its pieces between line feeds, each without a carriage
/// return at its end; an empty last piece is no line, and the last piece keeps
/// its carriage return.
pub open spec fn lines(s: Seq<char>) -> Seq<Seq<char>> {
    let parts = split(s, Separator::Newline);
    let ended = parts.drop_last().map_values(|p: Seq<char>| drop_return(p));
    if parts.last().len() == 0 {
        ended
    } else {
        ended.push(parts.last())
    }
}

/// The lines of a text.
pub fn text_lines(s: &str) -> (r: Vec<String>)
    ensures
        views(r@) == lines(s@),
{
    let parts = split_text(s, Separator::Newline);
    let ghost p = views(parts@);
    proof {
        lemma_split_nonempty(s@, Separator::Newline);
        assert(parts@.len() == p.len());
    }
    let n: usize = parts.len();
    let mut r: Vec<String> = Vec::new();
    let mut i: usize = 0;
    let ghost ended = p.drop_last().map_values(|q: Seq<char>| drop_return(q));
    while i < n - 1
        invariant
            n == parts@.len(),
            n >= 1,
            i <= n - 1,
            p == views(parts@),
            ended == p.drop_last().map_values(|q: Seq<char>| drop_return(q)),
            views(r@) == ended.take(i as int),
        decreases n - i,
    {
        let chars = chars_of(parts[i].as_str());
        let m: usize = chars.len();
        let ghost before = views(r@);
        let line = if m > 0 && chars[m - 1] == '\r' {
            let line = slice_text(&chars, 0, m - 1);
            assert(line@ =~= chars@.drop_last());
            line
        } else {
            parts[i].clone()
        };
        assert(line@ == drop_return(p[i as int]));
        r.push(line);
        assert(views(r@) =~= before.push(line@));
        i += 1;
        assert(ended.take(i as int) =~= ended.take(i - 1).push(line@));
    }
    assert(ended.take(i as int) =~= ended);
    if !parts[n - 1].as_str().is_empty() {
        let ghost before = views(r@);
        r.push(parts[n - 1].clone());
        assert(views(r@) =~= before.push(p.last()));
    }
    r
}

// ---------------------------------------------------------------------------
// Numbers

/// The decimal digit of a number below ten.
pub open spec fn digit_char(d: nat) -> char {
    (48 + d) as char
}

/// The decimal digits of a number.
pub open spec fn decimal(n: nat) -> Seq<char>
    decreases n,
{
    if n < 10 {
        seq![digit_char(n)]
    } else {
        decimal(n / 10).push(digit_char(n % 10))
    }
}

/// The decimal digits of a number.
pub fn decimal_text(n: u64) -> (r: String)
    ensures
        r@ == decimal(n as nat),
    decreases n,
{
    let mut r = if n < 10 {
        String::new()
    } else {
        decimal_text(n / 10)
    };
    let d = ((n % 10) as u8 + 48) as char;
    assert(d == digit_char((n % 10) as nat));
    let ghost before = r@;
    r.push(d);
    if n < 10 {
        assert(r@ =~= seq![digit_char(n as nat)]);
    }
    r
}

/// The decimal digits of an integer, with a minus sign before a negative one.
pub open spec fn integer(n: int) -> Seq<char> {
    if n < 0 {
        "-"@ + decimal((-n) as nat)
    } else {
        decimal(n as nat)
    }
}

/// The decimal digits of an integer, with a minus sign before a negative one.
pub fn integer_text(n: i64) -> (r: String)
    ensures
        r@ == integer(n as int),
{
    if n < 0 {
        let size: i128 = -(n as i128);
        let digits = decimal_text(size as u64);
        cat("-", digits.as_str())
    } else {
        decimal_text(n as u64)
    }
}

pub open spec fn all_digits(s: Seq<char>) -> bool {
    s.len() > 0 && forall|i: int| 0 <= i < s.len() ==> is_digit(#[trigger] s[i])
}

/// The number that a string of decimal digits stands for.
pub open spec fn number(s: Seq<char>) -> nat
    decreases s.len(),
{
    if s.len() == 0 {
        0
    } else {
        number(s.drop_last()) * 10 + ((s.last() as u32) - 48) as nat
    }
}

/// The digits of a number's text: what follows a leading plus sign, if any.
pub open spec fn unsigned(s: Seq<char>) -> Seq<char> {
    if s.len() > 0 && s[0] == '+' {
        s.skip(1)
    } else {
        s
    }
}

/// The value of a text that holds an unsigned decimal number of at most `max`.
pub open spec fn parsed(s: Seq<char>, max: nat) -> Option<nat> {
    if all_digits(unsigned(s)) && number(unsigned(s)) <= max {
        Some(number(unsigned(s)))
    } else {
        None
    }
}

proof fn lemma_number_grows(s: Seq<char>, i: int)
    requires
        0 <= i <= s.len(),
    ensures
        number(s.take(i)) <= number(s),
    decreases s.len() - i,
{
    if i < s.len() {
        lemma_number_grows(s, i + 1);
        assert(s.take(i + 1).drop_last() =~= s.take(i));
    } else {
        assert(s.take(i) =~= s);
    }
}

/// Reads an unsigned decimal number of at most `max`.
pub fn parse_number(s: &str, max: u64) -> (r: Option<u64>)
    ensures
        match r {
            Some(n) => parsed(s@, max as nat) == Some(n as nat),
            None => parsed(s@, max as nat) is None,
        },
{
    let chars = chars_of(s);
    let from: usize = if chars.len() > 0 && chars[0] == '+' {
        1
    } else {
        0
    };
    let ghost digits = unsigned(s@);
    assert(digits =~= chars@.skip(from as int));
    if chars.len() == from {
        return None;
    }
    let mut value: u64 = 0;
    let mut i: usize = from;
    while i < chars.len()
        invariant
            from <= i <= chars@.len(),
            digits == chars@.skip(from as int),
            digits == unsigned(s@),
            value == number(digits.take(i - from)),
            value <= max,
            forall|j: int| 0 <= j < i - from ==> is_digit(#[trigger] digits[j]),
        decreases chars@.len() - i,
    {
        let c = chars[i];
        assert(c == digits[i - from]);
        if !('0' <= c && c <= '9') {
            return None;
        }
        let d: u64 = (c as u8 - 48) as u64;
        proof {
            assert(digits.take(i - from + 1).drop_last() =~= digits.take(i - from));
            assert(digits.take(i - from + 1).last() == c);
            lemma_number_grows(digits, i - from + 1);
        }
        if value > max / 10 {
            assert(value * 10 > max);
            return None;
        }
        let tens: u64 = value * 10;
        if d > max - tens {
            return None;
        }
        value = tens + d;
        i += 1;
    }
    assert(digits.take(i - from) =~= digits);
    Some(value)
}

// ---------------------------------------------------------------------------
// Order

/// Whether `a` comes before `b` by their characters' code points.
pub open spec fn less(a: Seq<char>, b: Seq<char>) -> bool
    decreases a.len(),
{
    if b.len() == 0 {
        false
    } else if a.len() == 0 {
        true
    } else if a[0] != b[0] {
        a[0] < b[0]
    } else {
        less(a.skip(1), b.skip(1))
    }
}

/// Whether `a` comes before `b` by their characters' code points.
pub fn text_less(a: &str, b: &str) -> (r: bool)
    ensures
        r == less(a@, b@),
{
    let x = chars_of(a);
    let y = chars_of(b);
    let mut i: usize = 0;
    assert(x@.skip(0) =~= x@);
    assert(y@.skip(0) =~= y@);
    while i < x.len() && i < y.len() && x[i] == y[i]
        invariant
            i <= x@.len(),
            i <= y@.len(),
            less(x@, y@) == less(x@.skip(i as int), y@.skip(i as int)),
        decreases x@.len() - i,
    {
        assert(x@.skip(i as int).skip(1) =~= x@.skip(i + 1));
        assert(y@.skip(i as int).skip(1) =~= y@.skip(i + 1));
        i += 1;
    }
    if i >= y.len() {
        false
    } else if i >= x.len() {
        true
    } else {
        x[i] < y[i]
    }
}

/// The order on texts is strict and total.
pub proof fn less_is_total(a: Seq<char>, b: Seq<char>)
    ensures
        !(less(a, b) && less(b, a)),
        less(a, b) || less(b, a) || a == b,
        !less(a, a),
    decreases a.len(),
{
    if a.len() > 0 && b.len() > 0 && a[0] == b[0] {
        less_is_total(a.skip(1), b.skip(1));
        if a.skip(1) == b.skip(1) {
            assert(a =~= seq![a[0]] + a.skip(1));
            assert(b =~= seq![b[0]] + b.skip(1));
        }
    }
    if a.len() > 0 {
        less_is_total(a.skip(1), a.skip(1));
    }
    if a.len() == 0 && b.len() == 0 {
        assert(a =~= b);
    }
}

/// The order on texts is transitive.
pub proof fn less_is_transitive(a: Seq<char>, b: Seq<char>, c: Seq<char>)
    requires
        less(a, b),
        less(b, c),
    ensures
        less(a, c),
    decreases a.len(),
{
    if a.len() > 0 && a[0] == b[0] && b[0] == c[0] {
        less_is_transitive(a.skip(1), b.skip(1), c.skip(1));
    }
}

// ---------------------------------------------------------------------------
// Truncation

/// The first `max` characters of the text, and three dots where it is longer.
pub open spec fn truncated_view(s: Seq<char>, max: nat) -> Seq<char> {
    if s.len() <= max {
        s
    } else {
        s.take(max as int) + "..."@
    }
}

/// The first `max_chars` characters of the text, and three dots where it is longer.
pub fn truncate(value: &str, max_chars: usize) -> (r: String)
    ensures
        r@ == truncated_view(value@, max_chars as nat),
{
    let chars = chars_of(value);
    if chars.len() <= max_chars {
        return value.to_owned();
    }
    let head = slice_text(&chars, 0, max_chars);
    assert(head@ =~= value@.take(max_chars as int));
    cat(head.as_str(), "...")
}

/// The first `max_chars` characters of the text.
pub fn truncate_chars(value: &str, max_chars: usize) -> (r: String)
    ensures
        r@ == (if value@.len() <= max_chars {
            value@
        } else {
            value@.take(max_chars as int)
        }),
{
    let chars = chars_of(value);
    if chars.len() <= max_chars {
        return value.to_owned();
    }
    let r = slice_text(&chars, 0, max_chars);
    assert(r@ =~= value@.take(max_chars as int));
    r
}

/// Whether the text is in the list.
pub open spec fn is_listed(list: Seq<String>, text: Seq<char>) -> bool {
    exists|i: int| 0 <= i < list.len() && (#[trigger] list[i])@ == text
}

/// Whether the text is in the list.
pub fn lists_text(list: &Vec<String>, text: &str) -> (r: bool)
    ensures
        r == is_listed(list@, text@),
{
    let mut i: usize = 0;
    while i < list.len()
        invariant
            i <= list@.len(),
            forall|j: int| 0 <= j < i ==> (#[trigger] list@[j])@ != text@,
        decreases list@.len() - i,
    {
        if str_eq(list[i].as_str(), text) {
            return true;
        }
        i += 1;
    }
    false
}

// ---------------------------------------------------------------------------
// What these operations come to

/// Of two texts that begin alike, the one with the smaller character where they first
/// differ comes first, and a text comes before each longer one that begins with it.
pub proof fn less_goes_by_the_first_difference(p: Seq<char>, a: Seq<char>, b: Seq<char>)
    ensures
        a.len() > 0 && b.len() > 0 && a[0] < b[0] ==> less(p + a, p + b) && !less(p + b, p + a),
        a.len() > 0 ==> less(p, p + a) && !less(p + a, p),
    decreases p.len(),
{
    if p.len() == 0 {
        assert(p + a =~= a);
        assert(p + b =~= b);
    } else {
        less_goes_by_the_first_difference(p.skip(1), a, b);
        assert((p + a).skip(1) =~= p.skip(1) + a);
        assert((p + b).skip(1) =~= p.skip(1) + b);
    }
}

/// The case of a letter is all that changes: capitals and small letters of the English
/// alphabet stand for each other, all else stands for itself.
pub proof fn cases_stand_for_each_other(s: Seq<char>, i: int)
    requires
        0 <= i < s.len(),
    ensures
        lower(s).len() == s.len(),
        upper(s).len() == s.len(),
        lower(upper(s)) == lower(s),
        upper(lower(s)) == upper(s),
        'A' <= s[i] <= 'Z' ==> 'a' <= lower(s)[i] <= 'z' && (lower(s)[i] as u32) - ('a' as u32)
            == (s[i] as u32) - ('A' as u32) && upper(s)[i] == s[i],
        'a' <= s[i] <= 'z' ==> 'A' <= upper(s)[i] <= 'Z' && (upper(s)[i] as u32) - ('A' as u32)
            == (s[i] as u32) - ('a' as u32) && lower(s)[i] == s[i],
        !('A' <= s[i] <= 'Z') && !('a' <= s[i] <= 'z') ==> lower(s)[i] == s[i] && upper(s)[i]
            == s[i],
{
    assert(lower(upper(s)) =~= lower(s));
    assert(upper(lower(s)) =~= upper(s));
}

/// What is left of a text without the white space at its ends begins and ends with
/// another character, and white space before or behind a text does not matter.
pub proof fn trimmed_texts_have_no_white_ends(s: Seq<char>, c: char)
    ensures
        trim(s).len() > 0 ==> !is_white(trim(s)[0]) && !is_white(trim(s).last()),
        is_white(c) ==> trim(seq![c] + s) == trim(s),
        is_white(c) ==> trim(s.push(c)) == trim(s),
        trim(s).len() == 0 <==> forall|i: int| 0 <= i < s.len() ==> is_white(#[trigger] s[i]),
{
    lemma_start(s);
    lemma_end(trim_start(s));
    if is_white(c) {
        assert((seq![c] + s).skip(1) =~= s);
        assert((seq![c] + s)[0] == c);
        lemma_start_behind(s, c);
        if trim_start(s).len() > 0 {
            assert(trim_start(s).push(c).drop_last() =~= trim_start(s));
            assert(trim(s.push(c)) == trim(s));
        } else {
            assert(trim(s).len() == 0);
            assert(trim(s.push(c)) =~= trim(s));
        }
    }
    if forall|i: int| 0 <= i < s.len() ==> is_white(#[trigger] s[i]) {
        lemma_all_white(s);
    }
    if trim(s).len() == 0 {
        if trim_start(s).len() > 0 {
            assert(!is_white(trim_start(s)[0]));
            lemma_end_keeps(trim_start(s));
        }
        lemma_start_white(s);
    }
}

proof fn lemma_start(s: Seq<char>)
    ensures
        trim_start(s).len() > 0 ==> !is_white(trim_start(s)[0]),
    decreases s.len(),
{
    if s.len() > 0 && is_white(s[0]) {
        lemma_start(s.skip(1));
    }
}

proof fn lemma_end(s: Seq<char>)
    ensures
        trim_end(s).len() > 0 ==> !is_white(trim_end(s).last()) && trim_end(s)[0] == s[0],
    decreases s.len(),
{
    if s.len() > 0 && is_white(s.last()) {
        lemma_end(s.drop_last());
    }
}

proof fn lemma_end_keeps(s: Seq<char>)
    requires
        s.len() > 0,
        !is_white(s[0]),
    ensures
        trim_end(s).len() > 0,
    decreases s.len(),
{
    if is_white(s.last()) {
        assert(s.len() > 1);
        assert(s.drop_last()[0] == s[0]);
        lemma_end_keeps(s.drop_last());
    }
}

proof fn lemma_start_behind(s: Seq<char>, c: char)
    requires
        is_white(c),
    ensures
        trim_start(s).len() > 0 ==> trim_start(s.push(c)) == trim_start(s).push(c),
        trim_start(s).len() == 0 ==> trim_start(s.push(c)).len() == 0,
    decreases s.len(),
{
    reveal_with_fuel(trim_start, 2);
    let t = s.push(c);
    if s.len() == 0 {
        assert(t[0] == c);
        assert(t.skip(1).len() == 0);
    } else {
        assert(t[0] == s[0]);
        if is_white(s[0]) {
            assert(t.skip(1) =~= s.skip(1).push(c));
            lemma_start_behind(s.skip(1), c);
        }
    }
}

proof fn lemma_start_white(s: Seq<char>)
    requires
        trim_start(s).len() == 0,
    ensures
        forall|i: int| 0 <= i < s.len() ==> is_white(#[trigger] s[i]),
    decreases s.len(),
{
    if s.len() > 0 {
        lemma_start_white(s.skip(1));
        assert forall|i: int| 0 <= i < s.len() implies is_white(#[trigger] s[i]) by {
            if i > 0 {
                assert(s.skip(1)[i - 1] == s[i]);
            }
        }
    }
}

proof fn lemma_all_white(s: Seq<char>)
    requires
        forall|i: int| 0 <= i < s.len() ==> is_white(#[trigger] s[i]),
    ensures
        trim_start(s).len() == 0,
        trim(s).len() == 0,
    decreases s.len(),
{
    if s.len() > 0 {
        assert forall|i: int| 0 <= i < s.skip(1).len() implies is_white(#[trigger] s.skip(1)[i]) by {
            assert(s.skip(1)[i] == s[i + 1]);
        }
        lemma_all_white(s.skip(1));
    }
}

/// The pieces of a text hold no separator, and are the text again where the separator is
/// put between them.
pub proof fn pieces_make_up_the_text(s: Seq<char>, sep: Separator, c: char)
    ensures
        split(s, sep).len() > 0,
        forall|k: int, i: int|
            0 <= k < split(s, sep).len() && 0 <= i < split(s, sep)[k].len() ==> !sep.splits(
                #[trigger] split(s, sep)[k][i],
            ),
        (forall|i: int| 0 <= i < s.len() && sep.splits(#[trigger] s[i]) ==> s[i] == c) ==> join(
            split(s, sep),
            seq![c],
        ) == s,
    decreases s.len(),
{
    let parts = split(s, sep);
    if s.len() == 0 {
        assert(join(parts, seq![c]) =~= s);
    } else {
        let rest = s.drop_last();
        let before = split(rest, sep);
        pieces_make_up_the_text(rest, sep, c);
        assert forall|k: int, i: int| 0 <= k < parts.len() && 0 <= i < parts[k].len() implies !sep.splits(
            #[trigger] parts[k][i],
        ) by {
            if k < parts.len() - 1 {
                assert(parts[k] == before[k]);
                assert(before[k][i] == parts[k][i]);
            } else if !sep.splits(s.last()) {
                if i < parts[k].len() - 1 {
                    assert(before.last()[i] == parts[k][i]);
                    assert(before[before.len() - 1][i] == parts[k][i]);
                }
            }
        }
        if forall|i: int| 0 <= i < s.len() && sep.splits(#[trigger] s[i]) ==> s[i] == c {
            assert forall|i: int| 0 <= i < rest.len() && sep.splits(#[trigger] rest[i]) implies rest[i]
                == c by {
                assert(s[i] == rest[i]);
            }
            if sep.splits(s.last()) {
                assert(s[s.len() - 1] == c);
                assert(parts.drop_last() =~= before);
                assert(join(parts, seq![c]) =~= join(before, seq![c]) + seq![c]);
                assert(s =~= rest + seq![c]);
            } else {
                let last = before.last();
                assert(parts.drop_last() =~= before.drop_last());
                if before.len() == 1 {
                    assert(join(parts, seq![c]) =~= last.push(s.last()));
                    assert(join(before, seq![c]) == last);
                } else {
                    assert(join(parts, seq![c]) =~= join(before.drop_last(), seq![c]) + seq![c]
                        + last.push(s.last()));
                    assert(join(before, seq![c]) == join(before.drop_last(), seq![c]) + seq![c]
                        + last);
                }
                assert(join(parts, seq![c]) =~= join(before, seq![c]).push(s.last()));
                assert(s =~= rest.push(s.last()));
            }
        }
    }
}

/// The digits of a number stand for it: read, they give it back where it is not too
/// great.
pub proof fn numbers_are_read_back(n: nat, max: nat)
    ensures
        all_digits(decimal(n)),
        number(decimal(n)) == n,
        n <= max ==> parsed(decimal(n), max) == Some(n),
        n > max ==> parsed(decimal(n), max) is None,
{
    lemma_decimal(n);
    assert(is_digit(decimal(n)[0]));
    assert(unsigned(decimal(n)) == decimal(n));
}

proof fn lemma_decimal(n: nat)
    ensures
        all_digits(decimal(n)),
        number(decimal(n)) == n,
    decreases n,
{
    reveal_with_fuel(number, 2);
    let s = decimal(n);
    if n < 10 {
        assert(s.drop_last().len() == 0);
        assert(s.last() == digit_char(n));
    } else {
        lemma_decimal(n / 10);
        assert(s.drop_last() =~= decimal(n / 10));
        assert forall|i: int| 0 <= i < s.len() implies is_digit(#[trigger] s[i]) by {
            if i < s.len() - 1 {
                assert(s[i] == decimal(n / 10)[i]);
            }
        }
    }
}

/// A text that is cut holds its first characters, and tells that there were more.
pub proof fn cut_texts_begin_alike(s: Seq<char>, max: nat)
    ensures
        s.len() <= max ==> truncated_view(s, max) == s,
        s.len() > max ==> truncated_view(s, max).len() == max + 3 && forall|i: int|
            0 <= i < max ==> #[trigger] truncated_view(s, max)[i] == s[i],
        s.len() > max ==> truncated_view(s, max).last() == '.',
{
    reveal_strlit("...");
}

} // verus!
