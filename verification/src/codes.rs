//! Codes and tokens that are drawn at random until one comes that is free.
use vstd::prelude::*;
use vstd::string::*;

use crate::security::{is_code, random_code};
use crate::tables::{find, first, lemma_first_holds};
use crate::text::{cat, is_listed, lists_text, views};

verus! {

broadcast use vstd::string::group_string_axioms;

/// How many texts are drawn for one use at most.
pub const DRAWS: usize = 32;

/// Whether the texts are as many codes as are drawn at most.
pub open spec fn are_codes(drawn: Seq<String>, prefix: Option<char>, len: nat) -> bool {
    &&& drawn.len() == DRAWS
    &&& forall|k: int| 0 <= k < drawn.len() ==> is_code((#[trigger] drawn[k])@, prefix, len)
}

/// Whether the text is a token with that head.
pub open spec fn is_token(s: Seq<char>, head: Seq<char>) -> bool {
    exists|code: Seq<char>| #[trigger] is_code(code, None, 20) && s == head + code
}

/// Whether each of the texts is a token with that head.
pub open spec fn all_tokens(drawn: Seq<String>, head: Seq<char>) -> bool {
    forall|k: int| 0 <= k < drawn.len() ==> is_token((#[trigger] drawn[k])@, head)
}

/// Whether the lists hold as many tokens with that head as are drawn at most for
/// each of `n` uses.
pub open spec fn are_token_lists(drawn: Seq<Vec<String>>, head: Seq<char>, n: nat) -> bool {
    &&& drawn.len() == n
    &&& forall|k: int|
        0 <= k < drawn.len() ==> (#[trigger] drawn[k])@.len() == DRAWS && all_tokens(
            drawn[k]@,
            head,
        )
}

/// Draws codes for one use.
pub(crate) fn draw_codes(prefix: Option<char>, len: usize) -> (r: Vec<String>)
    ensures
        are_codes(r@, prefix, len as nat),
{
    let mut r: Vec<String> = Vec::new();
    while r.len() < DRAWS
        invariant
            r@.len() <= DRAWS,
            forall|k: int| 0 <= k < r@.len() ==> is_code((#[trigger] r@[k])@, prefix, len as nat),
        decreases DRAWS - r@.len(),
    {
        r.push(random_code(prefix, len));
    }
    r
}

/// Draws a token.
pub(crate) fn draw_token(head: &str) -> (r: String)
    ensures
        is_token(r@, head@),
{
    let code = random_code(None, 20);
    let r = cat(head, code.as_str());
    assert(is_code(code@, None, 20) && r@ == (head@ + code@));
    r
}

/// Draws that many tokens.
pub(crate) fn draw_tokens(head: &str, n: usize) -> (r: Vec<String>)
    ensures
        r@.len() == n,
        all_tokens(r@, head@),
{
    let mut r: Vec<String> = Vec::new();
    while r.len() < n
        invariant
            r@.len() <= n,
            all_tokens(r@, head@),
        decreases n - r@.len(),
    {
        r.push(draw_token(head));
    }
    r
}

/// Draws tokens for that many uses.
pub(crate) fn draw_token_lists(head: &str, n: usize) -> (r: Vec<Vec<String>>)
    ensures
        are_token_lists(r@, head@, n as nat),
{
    let mut r: Vec<Vec<String>> = Vec::new();
    while r.len() < n
        invariant
            r@.len() <= n,
            are_token_lists(r@, head@, r@.len()),
        decreases n - r@.len(),
    {
        r.push(draw_tokens(head, DRAWS));
    }
    r
}

/// The condition of being none of these texts.
pub open spec fn none_of(taken: Seq<Seq<char>>) -> spec_fn(String) -> bool {
    |s: String| !taken.contains(s@)
}

/// The texts that the first `k` uses get: each the first of those drawn for it that
/// is not taken and that no earlier use got; nothing where one use gets none.
pub open spec fn picks(taken: Seq<Seq<char>>, drawn: Seq<Vec<String>>, k: nat) -> Option<
    Seq<Seq<char>>,
>
    decreases k,
{
    if k == 0 {
        Some(Seq::empty())
    } else {
        match picks(taken, drawn, (k - 1) as nat) {
            None => None,
            Some(earlier) => match first(drawn[k - 1]@, none_of(taken + earlier)) {
                None => None,
                Some(s) => Some(earlier.push(s@)),
            },
        }
    }
}

/// Where a use gets no text no later use gets one.
proof fn lemma_no_picks(taken: Seq<Seq<char>>, drawn: Seq<Vec<String>>, k: nat, n: nat)
    requires
        k <= n,
        picks(taken, drawn, k) is None,
    ensures
        picks(taken, drawn, n) is None,
    decreases n - k,
{
    if k < n {
        lemma_no_picks(taken, drawn, k + 1, n);
    }
}

/// The texts that uses get differ from each other and from those that are taken, and
/// each was drawn for its use.
pub proof fn picks_are_free(taken: Seq<Seq<char>>, drawn: Seq<Vec<String>>, k: nat)
    requires
        k <= drawn.len(),
        picks(taken, drawn, k) is Some,
    ensures
        picks(taken, drawn, k)->0.len() == k,
        forall|i: int, j: int|
            0 <= i < taken.len() && 0 <= j < k ==> #[trigger] taken[i] != #[trigger] (picks(
                taken,
                drawn,
                k,
            )->0)[j],
        forall|i: int, j: int|
            0 <= i < j < k ==> #[trigger] (picks(taken, drawn, k)->0)[i] != #[trigger] (picks(
                taken,
                drawn,
                k,
            )->0)[j],
        forall|j: int|
            0 <= j < k ==> views(drawn[j]@).contains(#[trigger] (picks(taken, drawn, k)->0)[j]),
    decreases k,
{
    if k > 0 {
        let earlier = picks(taken, drawn, (k - 1) as nat)->0;
        picks_are_free(taken, drawn, (k - 1) as nat);
        let test = none_of(taken + earlier);
        lemma_first_holds(drawn[k - 1]@, test);
        let s = first(drawn[k - 1]@, test)->0;
        let p = picks(taken, drawn, k)->0;
        assert(p == earlier.push(s@));
        assert(!(taken + earlier).contains(s@));
        assert forall|i: int| 0 <= i < taken.len() implies #[trigger] taken[i] != s@ by {
            assert((taken + earlier)[i] == taken[i]);
        }
        assert forall|i: int| 0 <= i < earlier.len() implies #[trigger] earlier[i] != s@ by {
            assert((taken + earlier)[taken.len() + i] == earlier[i]);
        }
        let x = choose|x: int|
            0 <= x < drawn[k - 1]@.len() && #[trigger] drawn[k - 1]@[x] == s;
        assert(views(drawn[k - 1]@)[x] == s@);
    }
}

/// Picks a text for each of the first `n` uses.
pub fn pick_each(taken: &Vec<String>, drawn: &Vec<Vec<String>>, n: usize) -> (r: Option<Vec<String>>)
    requires
        n <= drawn@.len(),
    ensures
        match r {
            Some(p) => picks(views(taken@), drawn@, n as nat) == Some(views(p@)),
            None => picks(views(taken@), drawn@, n as nat) is None,
        },
{
    let mut r: Vec<String> = Vec::new();
    assert(views(r@) =~= Seq::<Seq<char>>::empty());
    let mut k: usize = 0;
    while k < n
        invariant
            k <= n <= drawn@.len(),
            r@.len() == k,
            picks(views(taken@), drawn@, k as nat) == Some(views(r@)),
        decreases n - k,
    {
        let test = |s: &String| -> (b: bool)
            ensures
                b == (none_of(views(taken@) + views(r@)))(*s),
        {
            let b = !lists_text(taken, s.as_str()) && !lists_text(&r, s.as_str());
            proof {
                lemma_listed(taken@, s@);
                lemma_listed(r@, s@);
                lemma_either(views(taken@), views(r@), s@);
            }
            b
        };
        let found = find(&drawn[k], test, Ghost(none_of(views(taken@) + views(r@))));
        match found {
            None => {
                proof {
                    lemma_no_picks(views(taken@), drawn@, (k + 1) as nat, n as nat);
                }
                return None;
            },
            Some(i) => {
                let ghost before = r@;
                let text = drawn[k][i].clone();
                r.push(text);
                assert(views(r@) =~= views(before).push(drawn@[k as int]@[i as int]@));
            },
        }
        k += 1;
    }
    Some(r)
}

proof fn lemma_listed(list: Seq<String>, text: Seq<char>)
    ensures
        is_listed(list, text) == views(list).contains(text),
{
    if is_listed(list, text) {
        let i = choose|i: int| 0 <= i < list.len() && (#[trigger] list[i])@ == text;
        assert(views(list)[i] == text);
    }
    if views(list).contains(text) {
        let i = choose|i: int| 0 <= i < views(list).len() && views(list)[i] == text;
        assert(list[i]@ == text);
    }
}

proof fn lemma_either(a: Seq<Seq<char>>, b: Seq<Seq<char>>, text: Seq<char>)
    ensures
        (a + b).contains(text) == (a.contains(text) || b.contains(text)),
{
    if a.contains(text) {
        let i = choose|i: int| 0 <= i < a.len() && a[i] == text;
        assert((a + b)[i] == text);
    }
    if b.contains(text) {
        let i = choose|i: int| 0 <= i < b.len() && b[i] == text;
        assert((a + b)[a.len() + i] == text);
    }
}

} // verus!
