use vstd::prelude::*;

use crate::errors::AppError;

verus! {

/// The crossword numbers of `recent` that are not yet in `existing`, in the
/// order of `recent`.
pub open spec fn new_numbers(recent: Seq<i64>, existing: Seq<i64>) -> Seq<i64> {
    recent.filter(|n: i64| !existing.contains(n))
}

fn contains_number(v: &Vec<i64>, n: i64) -> (r: bool)
    ensures
        r == v@.contains(n),
{
    let mut i: usize = 0;
    while i < v.len()
        invariant
            0 <= i <= v@.len(),
            forall|j: int| 0 <= j < i ==> v@[j] != n,
        decreases v@.len() - i,
    {
        if v[i] == n {
            return true;
        }
        i = i + 1;
    }
    false
}

/// The recently published crosswords that still have to be fetched: those
/// whose number is not among the stored ones.
pub fn select_new_crossword_nos(recent: &Vec<i64>, existing: &Vec<i64>) -> (r: Vec<i64>)
    ensures
        r@ == new_numbers(recent@, existing@),
{
    let mut r: Vec<i64> = Vec::new();
    let mut i: usize = 0;
    while i < recent.len()
        invariant
            0 <= i <= recent@.len(),
            r@ == new_numbers(recent@.take(i as int), existing@),
        decreases recent@.len() - i,
    {
        proof {
            assert(recent@.take(i + 1).drop_last() =~= recent@.take(i as int));
            reveal_with_fuel(Seq::filter, 1);
        }
        if !contains_number(existing, recent[i]) {
            r.push(recent[i]);
        }
        i = i + 1;
    }
    assert(recent@.take(i as int) =~= recent@);
    r
}

/// `s` with every occurrence of `from`, taken left to right without overlap,
/// replaced by `to`; an empty `from` matches before every character and at
/// the end.
pub open spec fn replaced(s: Seq<char>, from: Seq<char>, to: Seq<char>) -> Seq<char>
    decreases s.len(),
{
    if from.len() == 0 {
        if s.len() == 0 {
            to
        } else {
            to + seq![s[0]] + replaced(s.drop_first(), from, to)
        }
    } else if s.len() < from.len() {
        s
    } else if s.subrange(0, from.len() as int) == from {
        to + replaced(s.subrange(from.len() as int, s.len() as int), from, to)
    } else {
        seq![s[0]] + replaced(s.drop_first(), from, to)
    }
}

pub open spec fn is_digit(c: char) -> bool {
    '0' <= c <= '9'
}

/// The value of a string of decimal digits.
pub open spec fn digits_value(s: Seq<char>) -> int
    decreases s.len(),
{
    if s.len() == 0 {
        0
    } else {
        digits_value(s.drop_last()) * 10 + (s.last() as int - '0' as int)
    }
}

/// The value of a signed decimal: at least one digit after an optional `+`
/// or `-`.
pub open spec fn signed_value(s: Seq<char>) -> Option<int> {
    let negative = s.len() > 0 && s[0] == '-';
    let digits = if s.len() > 0 && (s[0] == '-' || s[0] == '+') { s.drop_first() } else { s };
    if digits.len() > 0 && forall|i: int| 0 <= i < digits.len() ==> is_digit(#[trigger] digits[i]) {
        Some(if negative { -digits_value(digits) } else { digits_value(digits) })
    } else {
        None
    }
}

/// The `i64` that `s` spells, if it spells one that fits.
pub open spec fn parsed_i64(s: Seq<char>) -> Option<i64> {
    match signed_value(s) {
        Some(v) => if i64::MIN <= v <= i64::MAX { Some(v as i64) } else { None },
        None => None,
    }
}

/// Relies on `str::starts_with` with a string pattern: whether `prefix` is a
/// prefix of `s`.
#[verifier::external_body]
fn starts_with(s: &str, prefix: &str) -> (r: bool)
    ensures
        r == (prefix@.len() <= s@.len() && s@.subrange(0, prefix@.len() as int) == prefix@),
{
    s.starts_with(prefix)
}

/// Relies on `str::replace` with a string pattern: every match, left to right
/// and without overlap, replaced by `to`.
#[verifier::external_body]
fn replace(s: &str, from: &str, to: &str) -> (r: String)
    ensures
        r@ == replaced(s@, from@, to@),
{
    s.replace(from, to)
}

/// Relies on `i64::from_str` (through `str::parse`): an optional sign then
/// decimal digits, within range; the error's text otherwise.
#[verifier::external_body]
fn parse_i64(s: &str) -> (r: Result<i64, String>)
    ensures
        r matches Ok(v) ==> parsed_i64(s@) == Some(v),
        r is Err ==> parsed_i64(s@) is None,
{
    s.parse::<i64>().map_err(|e| e.to_string())
}

/// A link to a crossword of the series whose page is `series_url`.
pub open spec fn spec_is_series_link(link: Seq<char>, series_url: Seq<char>) -> bool {
    series_url.len() <= link.len() && link.subrange(0, series_url.len() as int) == series_url
}

/// What remains of a crossword link once the series page and every `/` are
/// taken out: the crossword's number.
pub open spec fn link_number_text(link: Seq<char>, series_url: Seq<char>) -> Seq<char> {
    replaced(replaced(link, series_url, seq![]), seq!['/'], seq![])
}

/// The numbers of the crossword links among `links`, in order; `None` where
/// one of them does not end in a number.
pub open spec fn link_numbers(links: Seq<String>, series_url: Seq<char>) -> Option<Seq<i64>>
    decreases links.len(),
{
    if links.len() == 0 {
        Some(seq![])
    } else {
        match link_numbers(links.drop_last(), series_url) {
            None => None,
            Some(prev) => if spec_is_series_link(links.last()@, series_url) {
                match parsed_i64(link_number_text(links.last()@, series_url)) {
                    Some(v) => Some(prev.push(v)),
                    None => None,
                }
            } else {
                Some(prev)
            },
        }
    }
}

/// Whether `link` leads to a crossword of the series whose page is
/// `series_url`.
pub fn is_series_link(link: &str, series_url: &str) -> (r: bool)
    ensures
        r == spec_is_series_link(link@, series_url@),
{
    starts_with(link, series_url)
}

/// The numbers of the crosswords that a series page links to, in link order.
/// Links elsewhere are skipped; a crossword link that does not end in a
/// number fails the whole list.
pub fn crossword_nos_from_links(links: &Vec<String>, series_url: &str) -> (r: Result<Vec<i64>, AppError>)
    ensures
        r is Ok <==> link_numbers(links@, series_url@) is Some,
        r matches Ok(v) ==> link_numbers(links@, series_url@) == Some(v@),
        r matches Err(e) ==> e is InternalServerError,
{
    let mut r: Vec<i64> = Vec::new();
    let mut i: usize = 0;
    while i < links.len()
        invariant
            0 <= i <= links@.len(),
            link_numbers(links@.take(i as int), series_url@) == Some(r@),
        decreases links@.len() - i,
    {
        assert(links@.take(i + 1).drop_last() =~= links@.take(i as int));
        let link = links[i].as_str();
        if is_series_link(link, series_url) {
            let rest = replace(link, series_url, "");
            let text = replace(rest.as_str(), "/", "");
            proof {
                reveal_strlit("");
                reveal_strlit("/");
                assert(""@ =~= Seq::<char>::empty());
                assert("/"@ =~= seq!['/']);
                assert(text@ == link_number_text(links@[i as int]@, series_url@));
            }
            match parse_i64(text.as_str()) {
                Ok(v) => r.push(v),
                Err(message) => {
                    proof {
                        assert(link_numbers(links@.take(i + 1), series_url@) is None);
                        lemma_link_numbers_stay_none(links@, series_url@, i + 1);
                        assert(links@.take(links@.len() as int) =~= links@);
                    }
                    return Err(AppError::InternalServerError(message));
                },
            }
        }
        i = i + 1;
    }
    assert(links@.take(i as int) =~= links@);
    Ok(r)
}

proof fn lemma_link_numbers_stay_none(links: Seq<String>, series_url: Seq<char>, n: int)
    requires
        0 <= n <= links.len(),
        link_numbers(links.take(n), series_url) is None,
    ensures
        link_numbers(links.take(links.len() as int), series_url) is None,
    decreases links.len() - n,
{
    if n < links.len() {
        assert(links.take(n + 1).drop_last() =~= links.take(n));
        lemma_link_numbers_stay_none(links, series_url, n + 1);
    }
}

} // verus!
