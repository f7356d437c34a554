use vstd::prelude::*;

use crate::error::ParseErrorView;
use crate::grammar::{
    duration_of, is_space, is_unit_char, plus, run_len, token_outcome, tokens, tokens_from, unit_of,
};
use crate::number::{is_num_char, is_number, scaled};

verus! {

/// No character of `w` is a digit or a point.
pub open spec fn has_no_num_char(w: Seq<char>) -> bool {
    forall|j: int| 0 <= j < w.len() ==> !is_num_char(#[trigger] w[j])
}

/// `w` is empty or one white space: what may stand between a token's number
/// and its letter.
pub open spec fn is_separator(w: Seq<char>) -> bool {
    w.len() == 0 || (w.len() == 1 && is_space(w[0]))
}

/// A nonempty run of digits and points.
pub open spec fn is_num_run(num: Seq<char>) -> bool {
    num.len() > 0 && forall|j: int| 0 <= j < num.len() ==> is_num_char(#[trigger] num[j])
}

proof fn lemma_run_shift(a: Seq<char>, b: Seq<char>, i: int)
    requires
        0 <= i,
    ensures
        run_len(a + b, a.len() + i) == run_len(b, i),
    decreases b.len() - i,
{
    if i < b.len() {
        lemma_run_shift(a, b, i + 1);
        assert((a + b)[a.len() + i] == b[i]);
    }
}

proof fn lemma_run_bound(b: Seq<char>, i: int)
    requires
        0 <= i,
    ensures
        i <= b.len() ==> i + run_len(b, i) <= b.len(),
    decreases b.len() - i,
{
    if i < b.len() {
        lemma_run_bound(b, i + 1);
    }
}

/// The tokens from a position of `b` stay the same when text stands before `b`.
proof fn lemma_tokens_shift(a: Seq<char>, b: Seq<char>, i: int)
    requires
        0 <= i,
    ensures
        tokens_from(a + b, a.len() + i) == tokens_from(b, i),
    decreases b.len() - i,
{
    let s = a + b;
    let k = a.len() + i;
    if i < b.len() {
        assert(s[k] == b[i]);
        if !is_num_char(b[i]) {
            lemma_tokens_shift(a, b, i + 1);
        } else {
            lemma_run_shift(a, b, i + 1);
            lemma_run_bound(b, i + 1);
            let j = i + 1 + run_len(b, i + 1);
            assert(s.subrange(k, a.len() + j) =~= b.subrange(i, j));
            if j < b.len() {
                assert(s[a.len() + j] == b[j]);
                lemma_tokens_shift(a, b, j + 1);
                lemma_tokens_shift(a, b, j);
                if j + 1 < b.len() {
                    assert(s[a.len() + j + 1] == b[j + 1]);
                    lemma_tokens_shift(a, b, j + 2);
                }
            }
        }
    }
}

/// Characters that are neither digits nor points are passed over.
proof fn lemma_tokens_skip(s: Seq<char>, i: int, k: int)
    requires
        0 <= i <= k <= s.len(),
        forall|j: int| i <= j < k ==> !is_num_char(#[trigger] s[j]),
    ensures
        tokens_from(s, i) == tokens_from(s, k),
    decreases k - i,
{
    if i < k {
        lemma_tokens_skip(s, i + 1, k);
    }
}

/// A text that starts with a token has that token first.
proof fn lemma_head_token(num: Seq<char>, sep: Seq<char>, c: char, rest: Seq<char>)
    requires
        is_num_run(num),
        is_separator(sep),
        is_unit_char(c),
    ensures
        tokens(num + sep + seq![c] + rest) == seq![(num, c)] + tokens(rest),
{
    let head = num + sep + seq![c];
    let s = head + rest;
    let l = num.len() as int;
    assert(s[l] == if sep.len() == 0 { c } else { sep[0] });
    assert(forall|j: int| 0 <= j < l ==> s[j] == num[j]);
    assert(run_len(s, l) == 0);
    lemma_run_down(s, l);
    assert(s.subrange(0, l) =~= num);
    lemma_tokens_shift(head, rest, 0);
    assert(rest =~= rest.subrange(0, rest.len() as int));
    if sep.len() == 0 {
        assert(s[l] == c);
    } else {
        assert(s[l + 1] == c);
    }
}

/// Every position before `l` starts a numeric run that ends at `l`.
proof fn lemma_run_down(s: Seq<char>, l: int)
    requires
        0 < l <= s.len(),
        run_len(s, l) == 0,
        forall|j: int| 0 <= j < l ==> is_num_char(#[trigger] s[j]),
    ensures
        forall|i: int| 0 <= i <= l ==> #[trigger] run_len(s, i) == l - i,
{
    assert forall|i: int| 0 <= i <= l implies #[trigger] run_len(s, i) == l - i by {
        lemma_run_from(s, i, l);
    }
}

proof fn lemma_run_from(s: Seq<char>, i: int, l: int)
    requires
        0 <= i <= l <= s.len(),
        run_len(s, l) == 0,
        forall|j: int| 0 <= j < l ==> is_num_char(#[trigger] s[j]),
    ensures
        run_len(s, i) == l - i,
    decreases l - i,
{
    if i < l {
        lemma_run_from(s, i + 1, l);
    }
}

/// A text with no digit and no point holds no token and denotes no time.
pub proof fn law_no_tokens(s: Seq<char>)
    requires
        has_no_num_char(s),
    ensures
        duration_of(s) == Ok::<nat, ParseErrorView>(0),
{
    lemma_tokens_skip(s, 0, s.len() as int);
}

/// A token followed by any text: the token's seconds are added to what the
/// rest denotes, or the token's own failure is the result.
pub proof fn law_leading_token(num: Seq<char>, sep: Seq<char>, c: char, rest: Seq<char>)
    requires
        is_num_run(num),
        is_separator(sep),
        is_unit_char(c),
    ensures
        duration_of(num + sep + seq![c] + rest) == match token_outcome((num, c)) {
            Ok(v) => plus(v, duration_of(rest)),
            Err(e) => Err(e),
        },
{
    lemma_head_token(num, sep, c, rest);
    let toks = seq![(num, c)] + tokens(rest);
    assert(toks.drop_first() =~= tokens(rest));
    assert(toks[0] == (num, c));
}

/// A single token, whatever letters finish its unit word, denotes its number
/// times the unit's seconds, truncated: `N × factor` rounded toward zero.
pub proof fn law_single_token(num: Seq<char>, sep: Seq<char>, c: char, word: Seq<char>)
    requires
        is_num_run(num),
        is_number(num),
        is_separator(sep),
        unit_of(c) is Some,
        has_no_num_char(word),
    ensures
        duration_of(num + sep + seq![c] + word) == Ok::<nat, ParseErrorView>(
            scaled(num, unit_of(c)->0.spec_factor()),
        ),
{
    law_leading_token(num, sep, c, word);
    law_no_tokens(word);
}

/// The letters after a unit's first letter do not matter: `1d`, `1 day` and
/// `1 days` read alike, whatever text follows.
pub proof fn law_unit_word(num: Seq<char>, sep: Seq<char>, c: char, word: Seq<char>, rest: Seq<char>)
    requires
        is_num_run(num),
        is_separator(sep),
        is_unit_char(c),
        has_no_num_char(word),
    ensures
        duration_of(num + sep + seq![c] + (word + rest)) == duration_of(num + seq![c] + rest),
{
    law_leading_token(num, sep, c, word + rest);
    law_leading_token(num, Seq::empty(), c, rest);
    assert(num + Seq::<char>::empty() =~= num);
    let t = word + rest;
    assert forall|j: int| 0 <= j < word.len() implies !is_num_char(#[trigger] t[j]) by {
        assert(t[j] == word[j]);
    }
    lemma_tokens_skip(t, 0, word.len() as int);
    lemma_tokens_shift(word, rest, 0);
}

/// One white space between a token's number and its letter changes nothing.
pub proof fn law_space_optional(num: Seq<char>, w: char, c: char, rest: Seq<char>)
    requires
        is_num_run(num),
        is_space(w),
        is_unit_char(c),
    ensures
        duration_of(num + seq![w] + seq![c] + rest) == duration_of(num + seq![c] + rest),
{
    law_leading_token(num, seq![w], c, rest);
    law_leading_token(num, Seq::empty(), c, rest);
    assert(num + Seq::<char>::empty() =~= num);
}

/// A token whose run is no number (`1.2.3d`) fails with that run.
pub proof fn law_invalid_number(num: Seq<char>, sep: Seq<char>, c: char, rest: Seq<char>)
    requires
        is_num_run(num),
        !is_number(num),
        is_separator(sep),
        is_unit_char(c),
    ensures
        duration_of(num + sep + seq![c] + rest) == Err::<nat, ParseErrorView>(
            ParseErrorView::InvalidNumber(num),
        ),
{
    law_leading_token(num, sep, c, rest);
}

/// A number followed by a letter that names no unit (`5z`) fails with that
/// letter.
pub proof fn law_unknown_unit(num: Seq<char>, sep: Seq<char>, c: char, rest: Seq<char>)
    requires
        is_num_run(num),
        is_number(num),
        is_separator(sep),
        is_unit_char(c),
        unit_of(c) is None,
    ensures
        duration_of(num + sep + seq![c] + rest) == Err::<nat, ParseErrorView>(
            ParseErrorView::UnknownUnit(seq![c]),
        ),
{
    law_leading_token(num, sep, c, rest);
}

} // verus!
