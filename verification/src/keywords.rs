//! The keyword parser.
//!
//! A status query response carries one free-form "keyword string": a
//! comma-delimited pack of loosely structured tokens. Two of them matter
//! here: a queue length encoded as `lqs<number>`, and a short clock-like
//! token such as `12:34`. This module gives the decoding an exact
//! mathematical model and a verified implementation.

use vstd::prelude::*;

use crate::server::ServerInfo;

verus! {

/// Position of the first comma in `s`, or `s.len()` if there is none.
pub open spec fn first_comma(s: Seq<char>) -> int
    decreases s.len(),
{
    if s.len() == 0 {
        0
    } else if s[0] == ',' {
        0
    } else {
        1 + first_comma(s.skip(1))
    }
}

/// `first_comma` names what it should: everything before it is not a
/// comma, and it points at a comma unless the string has none.
pub proof fn lemma_first_comma(s: Seq<char>)
    ensures
        0 <= first_comma(s) <= s.len(),
        forall|j: int| 0 <= j < first_comma(s) ==> s[j] != ',',
        first_comma(s) < s.len() ==> s[first_comma(s)] == ',',
    decreases s.len(),
{
    if s.len() == 0 {
    } else if s[0] == ',' {
    } else {
        lemma_first_comma(s.skip(1));
        assert forall|j: int| 0 <= j < first_comma(s) implies s[j] != ',' by {
            if j > 0 {
                assert(s.skip(1)[j - 1] == s[j]);
            }
        }
        if first_comma(s) < s.len() {
            assert(s.skip(1)[first_comma(s) - 1] == s[first_comma(s)]);
        }
    }
}

#[via_fn]
proof fn split_tokens_decreases(s: Seq<char>) {
    lemma_first_comma(s);
}

/// The token list of a keyword string: the segments between commas, in
/// order, empty segments kept. A string with no comma is one token; every
/// comma ends one token and starts the next.
pub open spec fn split_tokens(s: Seq<char>) -> Seq<Seq<char>>
    decreases s.len(),
    via split_tokens_decreases
{
    let i: int = first_comma(s);
    if i == s.len() {
        seq![s]
    } else {
        seq![s.take(i)] + split_tokens(s.skip(i + 1))
    }
}

/// A token that encodes the queue length: it starts with the literal
/// prefix `lqs`.
pub open spec fn is_lqs_token(t: Seq<char>) -> bool {
    t.len() >= 3 && t[0] == 'l' && t[1] == 'q' && t[2] == 's'
}

/// What is left of an `lqs` token once the prefix is stripped.
pub open spec fn lqs_suffix(t: Seq<char>) -> Seq<char> {
    t.skip(3)
}

/// A decimal digit.
pub open spec fn is_digit(c: char) -> bool {
    '0' as u32 <= c as u32 && c as u32 <= '9' as u32
}

/// Numeric value of one decimal digit.
pub open spec fn digit_val(c: char) -> nat {
    ((c as u32) - ('0' as u32)) as nat
}

pub open spec fn all_digits(s: Seq<char>) -> bool {
    forall|i: int| 0 <= i < s.len() ==> is_digit(#[trigger] s[i])
}

/// Value of a digit string read in base ten.
pub open spec fn digits_val(s: Seq<char>) -> nat
    decreases s.len(),
{
    if s.len() == 0 {
        0
    } else {
        digits_val(s.drop_last()) * 10 + digit_val(s.last())
    }
}

/// The digits of a numeral, once an optional leading plus sign is
/// dropped: the shape a non-negative integer literal takes.
pub open spec fn numeric_body(t: Seq<char>) -> Seq<char> {
    if t.len() > 0 && t[0] == '+' {
        t.skip(1)
    } else {
        t
    }
}

/// Whether `t` reads as a non-negative integer that fits in 32 bits: an
/// optional plus sign, then at least one digit, nothing else, value at
/// most `u32::MAX`.
pub open spec fn parses_as_u32(t: Seq<char>) -> bool {
    let b = numeric_body(t);
    b.len() > 0 && all_digits(b) && digits_val(b) <= u32::MAX
}

/// The value `t` reads as, when it does.
pub open spec fn parsed_u32(t: Seq<char>) -> u32
    recommends
        parses_as_u32(t),
{
    digits_val(numeric_body(t)) as u32
}

/// The queue length a token list yields: the value of the last `lqs`
/// token whose suffix reads as a 32-bit integer. An `lqs` token whose
/// suffix does not parse is passed over; it neither aborts the scan nor
/// clears an earlier match.
pub open spec fn queue_of_tokens(toks: Seq<Seq<char>>) -> Option<u32>
    decreases toks.len(),
{
    if toks.len() == 0 {
        None
    } else if is_lqs_token(toks.last()) && parses_as_u32(lqs_suffix(toks.last())) {
        Some(parsed_u32(lqs_suffix(toks.last())))
    } else {
        queue_of_tokens(toks.drop_last())
    }
}

/// A token that qualifies as the server clock: it contains a colon, is at
/// most eight characters long, and is not an `lqs` token (the queue rule
/// is checked first and short-circuits).
pub open spec fn is_time_token(t: Seq<char>) -> bool {
    !is_lqs_token(t) && t.contains(':') && t.len() <= 8
}

/// The clock token a token list yields: the first qualifying token in
/// left-to-right order; later candidates are ignored.
pub open spec fn time_of_tokens(toks: Seq<Seq<char>>) -> Option<Seq<char>>
    decreases toks.len(),
{
    if toks.len() == 0 {
        None
    } else {
        match time_of_tokens(toks.drop_last()) {
            Some(t) => Some(t),
            None => if is_time_token(toks.last()) {
                Some(toks.last())
            } else {
                None
            },
        }
    }
}

/// Queue length decoded from a whole keyword string.
pub open spec fn queue_of_keywords(k: Seq<char>) -> Option<u32> {
    queue_of_tokens(split_tokens(k))
}

/// Clock token decoded from a whole keyword string.
pub open spec fn time_of_keywords(k: Seq<char>) -> Option<Seq<char>> {
    time_of_tokens(split_tokens(k))
}

/// The status record a keyword string decodes to. The player counts stay
/// at zero: the caller overwrites them with the counts the response
/// reports directly.
pub open spec fn status_of_keywords(k: Seq<char>) -> crate::server::ServerInfoView {
    crate::server::ServerInfoView {
        server_time: time_of_keywords(k),
        players_in_queue: queue_of_keywords(k),
        players: 0,
        max_players: 0,
    }
}

proof fn lemma_queue_none(toks: Seq<Seq<char>>)
    requires
        forall|i: int| 0 <= i < toks.len() ==> !is_lqs_token(#[trigger] toks[i]),
    ensures
        queue_of_tokens(toks) is None,
    decreases toks.len(),
{
    if toks.len() > 0 {
        assert(toks.last() == toks[toks.len() - 1]);
        assert forall|i: int| 0 <= i < toks.drop_last().len() implies !is_lqs_token(
            #[trigger] toks.drop_last()[i],
        ) by {
            assert(toks.drop_last()[i] == toks[i]);
        }
        lemma_queue_none(toks.drop_last());
    }
}

/// A keyword string none of whose tokens carries the `lqs` prefix
/// decodes to an unset queue length.
pub proof fn lemma_no_lqs_no_queue(k: Seq<char>)
    requires
        forall|i: int| 0 <= i < split_tokens(k).len() ==> !is_lqs_token(
            #[trigger] split_tokens(k)[i],
        ),
    ensures
        queue_of_keywords(k) is None,
{
    lemma_queue_none(split_tokens(k));
}

proof fn lemma_queue_last(toks: Seq<Seq<char>>, i: int)
    requires
        0 <= i < toks.len(),
        is_lqs_token(toks[i]),
        parses_as_u32(lqs_suffix(toks[i])),
        forall|j: int| i < j < toks.len() ==> !(is_lqs_token(#[trigger] toks[j]) && parses_as_u32(
            lqs_suffix(toks[j]),
        )),
    ensures
        queue_of_tokens(toks) == Some(parsed_u32(lqs_suffix(toks[i]))),
    decreases toks.len(),
{
    assert(toks.last() == toks[toks.len() - 1]);
    if i < toks.len() - 1 {
        assert forall|j: int|
            i < j < toks.drop_last().len() implies !(is_lqs_token(#[trigger] toks.drop_last()[j])
            && parses_as_u32(lqs_suffix(toks.drop_last()[j]))) by {
            assert(toks.drop_last()[j] == toks[j]);
        }
        assert(toks.drop_last()[i] == toks[i]);
        lemma_queue_last(toks.drop_last(), i);
    }
}

/// Of several `lqs` tokens, the last one whose suffix reads as a 32-bit
/// integer decides the queue length: parse failures after it change
/// nothing.
pub proof fn lemma_last_lqs_wins(k: Seq<char>, i: int)
    requires
        0 <= i < split_tokens(k).len(),
        is_lqs_token(split_tokens(k)[i]),
        parses_as_u32(lqs_suffix(split_tokens(k)[i])),
        forall|j: int| i < j < split_tokens(k).len() ==> !(is_lqs_token(
            #[trigger] split_tokens(k)[j],
        ) && parses_as_u32(lqs_suffix(split_tokens(k)[j]))),
    ensures
        queue_of_keywords(k) == Some(parsed_u32(lqs_suffix(split_tokens(k)[i]))),
{
    lemma_queue_last(split_tokens(k), i);
}

proof fn lemma_time_none(toks: Seq<Seq<char>>)
    requires
        forall|i: int| 0 <= i < toks.len() ==> !is_time_token(#[trigger] toks[i]),
    ensures
        time_of_tokens(toks) is None,
    decreases toks.len(),
{
    if toks.len() > 0 {
        assert(toks.last() == toks[toks.len() - 1]);
        assert forall|i: int| 0 <= i < toks.drop_last().len() implies !is_time_token(
            #[trigger] toks.drop_last()[i],
        ) by {
            assert(toks.drop_last()[i] == toks[i]);
        }
        lemma_time_none(toks.drop_last());
    }
}

proof fn lemma_time_first(toks: Seq<Seq<char>>, i: int)
    requires
        0 <= i < toks.len(),
        is_time_token(toks[i]),
        forall|j: int| 0 <= j < i ==> !is_time_token(#[trigger] toks[j]),
    ensures
        time_of_tokens(toks) == Some(toks[i]),
    decreases toks.len(),
{
    assert(toks.last() == toks[toks.len() - 1]);
    assert forall|j: int| 0 <= j < toks.drop_last().len() && j < i implies !is_time_token(
        #[trigger] toks.drop_last()[j],
    ) by {
        assert(toks.drop_last()[j] == toks[j]);
    }
    if i == toks.len() - 1 {
        lemma_time_none(toks.drop_last());
    } else {
        assert(toks.drop_last()[i] == toks[i]);
        lemma_time_first(toks.drop_last(), i);
    }
}

/// The first token in left-to-right order that contains a colon, is at
/// most eight characters long and is not an `lqs` token becomes the
/// server clock; every later candidate is ignored.
pub proof fn lemma_first_time_wins(k: Seq<char>, i: int)
    requires
        0 <= i < split_tokens(k).len(),
        is_time_token(split_tokens(k)[i]),
        forall|j: int| 0 <= j < i ==> !is_time_token(#[trigger] split_tokens(k)[j]),
    ensures
        time_of_keywords(k) == Some(split_tokens(k)[i]),
{
    lemma_time_first(split_tokens(k), i);
}

/// Splitting takes off exactly the segment before the first comma: if
/// `s[i]` is the first comma of `s`, the token list of `s` is `s` up to
/// `i` followed by the token list of what comes after the comma.
proof fn lemma_split_step(s: Seq<char>, i: int)
    requires
        0 <= i < s.len(),
        s[i] == ',',
        forall|j: int| 0 <= j < i ==> s[j] != ',',
    ensures
        split_tokens(s) == seq![s.take(i)] + split_tokens(s.skip(i + 1)),
{
    lemma_first_comma(s);
    assert(first_comma(s) == i) by {
        if first_comma(s) < i {
            assert(s[first_comma(s)] != ',');
        }
        if first_comma(s) > i {
            assert(s[i] != ',');
        }
    }
}

/// A string without a comma is a single token.
proof fn lemma_split_whole(s: Seq<char>)
    requires
        forall|j: int| 0 <= j < s.len() ==> s[j] != ',',
    ensures
        split_tokens(s) == seq![s],
{
    lemma_first_comma(s);
    assert(first_comma(s) == s.len()) by {
        if first_comma(s) < s.len() {
            assert(s[first_comma(s)] != ',');
        }
    }
}

/// Appending a token on the right updates the queue fold the way one
/// loop step does: a parsing `lqs` token overwrites, anything else keeps
/// the value so far.
proof fn lemma_queue_push(toks: Seq<Seq<char>>, t: Seq<char>)
    ensures
        queue_of_tokens(toks.push(t)) == (if is_lqs_token(t) && parses_as_u32(lqs_suffix(t)) {
            Some(parsed_u32(lqs_suffix(t)))
        } else {
            queue_of_tokens(toks)
        }),
{
    assert(toks.push(t).last() == t);
    assert(toks.push(t).drop_last() =~= toks);
}

/// Appending a token on the right updates the clock fold the way one
/// loop step does: an earlier match stands, otherwise a qualifying token
/// is taken.
proof fn lemma_time_push(toks: Seq<Seq<char>>, t: Seq<char>)
    ensures
        time_of_tokens(toks.push(t)) == (match time_of_tokens(toks) {
            Some(x) => Some(x),
            None => if is_time_token(t) {
                Some(t)
            } else {
                None
            },
        }),
{
    assert(toks.push(t).last() == t);
    assert(toks.push(t).drop_last() =~= toks);
}

/// Reading more digits never shrinks the value: the value of a prefix of
/// a digit string is at most the value of the whole string.
proof fn lemma_digits_val_take(s: Seq<char>, m: int)
    requires
        0 <= m <= s.len(),
    ensures
        digits_val(s.take(m)) <= digits_val(s),
    decreases s.len(),
{
    if m == s.len() {
        assert(s.take(m) =~= s);
    } else {
        lemma_digits_val_take(s.drop_last(), m);
        assert(s.drop_last().take(m) =~= s.take(m));
        assert(digits_val(s) == digits_val(s.drop_last()) * 10 + digit_val(s.last()));
        assert(digits_val(s.drop_last()) * 10 >= digits_val(s.drop_last())) by (nonlinear_arith);
    }
}

/// How the matched clock token relates to the optional string held by
/// the implementation.
spec fn time_matches(server_time: Option<String>, t: Option<Seq<char>>) -> bool {
    match server_time {
        Some(x) => t == Some(x@),
        None => t is None,
    }
}

/// Reads `s[lo..hi]` as a non-negative 32-bit integer, exactly as
/// [`parses_as_u32`] describes: an optional plus sign, then digits, and
/// the value must fit.
fn parse_u32_chars(s: &str, lo: usize, hi: usize) -> (r: Option<u32>)
    requires
        lo <= hi <= s@.len(),
    ensures
        ({
            let t = s@.subrange(lo as int, hi as int);
            match r {
                Some(v) => parses_as_u32(t) && v == parsed_u32(t),
                None => !parses_as_u32(t),
            }
        }),
{
    let ghost t = s@.subrange(lo as int, hi as int);
    let body_lo: usize = if lo < hi && s.get_char(lo) == '+' {
        lo + 1
    } else {
        lo
    };
    proof {
        assert(numeric_body(t) =~= s@.subrange(body_lo as int, hi as int));
    }
    let ghost b = s@.subrange(body_lo as int, hi as int);
    if body_lo == hi {
        return None;
    }
    let mut j: usize = body_lo;
    let mut acc: u64 = 0;
    while j < hi
        invariant
            lo <= body_lo <= j <= hi <= s@.len(),
            t == s@.subrange(lo as int, hi as int),
            b == s@.subrange(body_lo as int, hi as int),
            numeric_body(t) == b,
            acc <= u32::MAX,
            all_digits(s@.subrange(body_lo as int, j as int)),
            acc == digits_val(s@.subrange(body_lo as int, j as int)),
        decreases hi - j,
    {
        let c = s.get_char(j);
        let cu: u32 = c as u32;
        if cu < '0' as u32 || cu > '9' as u32 {
            proof {
                assert(b[j - body_lo] == c);
                assert(!all_digits(b));
            }
            return None;
        }
        let d: u32 = cu - '0' as u32;
        let next: u64 = acc * 10 + d as u64;
        proof {
            let pre = s@.subrange(body_lo as int, j as int);
            let ext = s@.subrange(body_lo as int, j as int + 1);
            assert(ext =~= pre.push(c));
            assert(ext.drop_last() =~= pre);
            assert(digits_val(ext) == digits_val(pre) * 10 + digit_val(c));
        }
        if next > u32::MAX as u64 {
            proof {
                let ext = s@.subrange(body_lo as int, j as int + 1);
                assert(ext =~= b.take(j + 1 - body_lo));
                lemma_digits_val_take(b, j + 1 - body_lo);
                assert(digits_val(b) > u32::MAX);
            }
            return None;
        }
        acc = next;
        j = j + 1;
    }
    proof {
        assert(s@.subrange(body_lo as int, j as int) =~= b);
    }
    Some(acc as u32)
}

/// Decodes an optional keyword string into a status record, exactly as
/// [`status_of_keywords`] describes: the string is split on commas; the
/// last `lqs` token whose suffix reads as a 32-bit integer gives the
/// queue length; the first remaining token that contains a colon and is
/// at most eight characters long gives the server clock, verbatim. The
/// player counts stay at zero for the caller to fill in. No keyword
/// string at all decodes to nothing.
pub fn extract_time_and_queue(keywords: Option<String>) -> (r: Option<ServerInfo>)
    ensures
        keywords is None ==> r is None,
        keywords matches Some(k) ==> r matches Some(info) && info@ == status_of_keywords(k@),
{
    let k = match keywords {
        Some(k) => k,
        None => {
            return None;
        },
    };
    let s: &str = k.as_str();
    let n: usize = s.unicode_len();
    let mut server_time: Option<String> = None;
    let mut players_in_queue: Option<u32> = None;
    let mut start: usize = 0;
    let ghost toks_all: Seq<Seq<char>> = split_tokens(s@);
    let ghost mut done: Seq<Seq<char>> = Seq::empty();
    proof {
        assert(s@.skip(0) =~= s@);
        assert(done + split_tokens(s@) =~= split_tokens(s@));
    }
    loop
        invariant_except_break
            n == s@.len(),
            start <= n,
            toks_all == split_tokens(s@),
            toks_all == done + split_tokens(s@.skip(start as int)),
            players_in_queue == queue_of_tokens(done),
            time_matches(server_time, time_of_tokens(done)),
        ensures
            players_in_queue == queue_of_tokens(toks_all),
            time_matches(server_time, time_of_tokens(toks_all)),
        decreases n - start,
    {
        let mut end: usize = start;
        while end < n && s.get_char(end) != ','
            invariant
                start <= end <= n,
                n == s@.len(),
                forall|j: int| start <= j < end ==> s@[j] != ',',
            decreases n - end,
        {
            end = end + 1;
        }
        let ghost rest = s@.skip(start as int);
        let ghost tok = s@.subrange(start as int, end as int);
        proof {
            assert forall|j: int| 0 <= j < end - start implies rest[j] != ',' by {
                assert(rest[j] == s@[start + j]);
            }
            assert(rest.take(end - start) =~= tok);
            if end == n {
                lemma_split_whole(rest);
            } else {
                assert(rest[end - start] == s@[end as int]);
                lemma_split_step(rest, end - start);
                assert(rest.skip(end - start + 1) =~= s@.skip(end as int + 1));
            }
        }
        let len_t: usize = end - start;
        let is_lqs = len_t >= 3 && s.get_char(start) == 'l' && s.get_char(start + 1) == 'q'
            && s.get_char(start + 2) == 's';
        proof {
            assert(tok.len() == len_t);
            if len_t >= 3 {
                assert(tok[0] == s@[start as int]);
                assert(tok[1] == s@[start as int + 1]);
                assert(tok[2] == s@[start as int + 2]);
            }
            assert(is_lqs == is_lqs_token(tok));
        }
        if is_lqs {
            proof {
                assert(lqs_suffix(tok) =~= s@.subrange(start as int + 3, end as int));
            }
            match parse_u32_chars(s, start + 3, end) {
                Some(v) => {
                    players_in_queue = Some(v);
                },
                None => {},
            }
            proof {
                lemma_queue_push(done, tok);
                lemma_time_push(done, tok);
            }
        } else {
            let mut has_colon = false;
            let mut p: usize = start;
            while p < end
                invariant
                    start <= p <= end <= n,
                    n == s@.len(),
                    tok == s@.subrange(start as int, end as int),
                    has_colon == exists|j: int| start <= j < p && s@[j] == ':',
                decreases end - p,
            {
                if s.get_char(p) == ':' {
                    has_colon = true;
                }
                p = p + 1;
            }
            proof {
                assert forall|j: int| start <= j < end && s@[j] == ':' implies tok.contains(':') by {
                    assert(tok[j - start] == s@[j]);
                }
                if tok.contains(':') {
                    let j: int = choose|j: int| 0 <= j < tok.len() && tok[j] == ':';
                    assert(s@[start + j] == ':');
                }
                assert(has_colon == tok.contains(':'));
            }
            if server_time.is_none() && has_colon && len_t <= 8 {
                let time = s.substring_char(start, end).to_owned();
                server_time = Some(time);
            }
            proof {
                lemma_queue_push(done, tok);
                lemma_time_push(done, tok);
            }
        }
        proof {
            done = done.push(tok);
            if end < n {
                assert(done + (seq![tok] + split_tokens(s@.skip(end as int + 1))) =~= (done.push(
                    tok,
                ) + split_tokens(s@.skip(end as int + 1))));
            }
        }
        if end == n {
            proof {
                assert(toks_all =~= done);
            }
            break ;
        }
        start = end + 1;
    }
    let info = ServerInfo { server_time, players_in_queue, players: 0, max_players: 0 };
    Some(info)
}

} // verus!
