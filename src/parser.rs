use vstd::prelude::*;

use crate::duration::{saturate, Duration};
use crate::error::ParseError;
use crate::grammar::{
    duration_of, eval, is_number_char, is_space_char, is_unit_letter, plus, run_len, tokens_from,
    Unit,
};
use crate::number::{is_num_char, scaled, scaled_seconds};

verus! {

/// Reads a duration from text such as `"1d 4h 23m 10s"` or `"2.5 hours"`.
///
/// Each token (a run of digits and points, at most one white space, then a
/// lowercase letter) adds its number times the unit that the letter names
/// (`d`, `h`, `m`, `s`), truncated to whole seconds token by token. Text
/// between tokens is skipped, so `"4 hours"` reads as `4h`, and text without
/// tokens reads as no time at all. The first token whose run is no number, or
/// whose letter names no unit, ends the reading with that error. A total
/// beyond `u64::MAX` seconds is capped there.
pub fn parse_duration(dur: &str) -> (r: Result<Duration, ParseError>)
    ensures
        match duration_of(dur@) {
            Ok(n) => r matches Ok(d) && d.spec_secs() == saturate(n),
            Err(e) => r matches Err(err) && err@ == e,
        },
{
    let chars = chars_of(dur);
    let n = chars.len();
    let ghost s = dur@;
    let mut total = Duration::zero();
    let ghost mut acc: nat = 0;
    let mut pos: usize = 0;
    while pos < n
        invariant
            pos <= n,
            n == s.len(),
            chars@ == s,
            dur@ == s,
            total.spec_secs() == saturate(acc),
            duration_of(s) == plus(acc, eval(tokens_from(s, pos as int))),
        decreases n - pos,
    {
        if !is_number_char(chars[pos]) {
            pos = pos + 1;
        } else {
            let start = pos;
            let mut end = pos + 1;
            while end < n && is_number_char(chars[end])
                invariant
                    start < end <= n,
                    n == s.len(),
                    chars@ == s,
                    end + run_len(s, end as int) == start + 1 + run_len(s, start + 1),
                    forall|j: int| start <= j < end ==> is_num_char(#[trigger] s[j]),
                decreases n - end,
            {
                end = end + 1;
            }
            let letter: usize = if end < n && is_unit_letter(chars[end]) {
                end
            } else if end < n && end + 1 < n && is_space_char(chars[end]) && is_unit_letter(chars[end + 1]) {
                end + 1
            } else {
                n
            };
            if letter == n {
                pos = end;
            } else {
                let ghost tok = (s.subrange(start as int, end as int), s[letter as int]);
                let ghost rest = tokens_from(s, letter + 1);
                assert(tokens_from(s, start as int) == seq![tok] + rest);
                assert((seq![tok] + rest).drop_first() =~= rest);
                assert((seq![tok] + rest)[0] == tok);
                let num = copy_range(&chars, start, end);
                assert(forall|j: int| 0 <= j < num@.len() ==> is_num_char(#[trigger] num@[j])) by {
                    assert(forall|j: int| 0 <= j < num@.len() ==> num@[j] == s[start + j]);
                }
                match Unit::from_letter(chars[letter]) {
                    None => {
                        // A faulty number is reported before a faulty unit.
                        if scaled_seconds(&num, 1).is_none() {
                            return Err(
                                ParseError::InvalidNumber(
                                    dur.substring_char(start, end).to_owned(),
                                ),
                            );
                        }
                        let unit_text = dur.substring_char(letter, letter + 1).to_owned();
                        assert(unit_text@ =~= seq![s[letter as int]]);
                        return Err(ParseError::UnknownUnit(unit_text));
                    },
                    Some(unit) => {
                        match scaled_seconds(&num, unit.factor()) {
                            None => {
                                return Err(
                                    ParseError::InvalidNumber(
                                        dur.substring_char(start, end).to_owned(),
                                    ),
                                );
                            },
                            Some(secs) => {
                                proof {
                                    acc = acc + scaled(tok.0, unit.spec_factor());
                                }
                                total = total.saturating_add(Duration::from_secs(secs));
                            },
                        }
                    },
                }
                pos = letter + 1;
            }
        }
    }
    Ok(total)
}

/// The characters of `s`, in order.
fn chars_of(s: &str) -> (r: Vec<char>)
    ensures
        r@ == s@,
{
    let mut r: Vec<char> = Vec::new();
    for c in it: s.chars()
        invariant
            r@ == it.seq().take(it.index() as int),
    {
        r.push(c);
    }
    assert(r@ =~= s@);
    r
}

/// The characters of `v` from `from` up to `to`.
fn copy_range(v: &Vec<char>, from: usize, to: usize) -> (r: Vec<char>)
    requires
        from <= to <= v@.len(),
    ensures
        r@ == v@.subrange(from as int, to as int),
{
    let mut r: Vec<char> = Vec::new();
    let mut i: usize = from;
    while i < to
        invariant
            from <= i <= to <= v@.len(),
            r@ == v@.subrange(from as int, i as int),
        decreases to - i,
    {
        r.push(v[i]);
        i = i + 1;
        assert(r@ =~= v@.subrange(from as int, i as int));
    }
    r
}

} // verus!
