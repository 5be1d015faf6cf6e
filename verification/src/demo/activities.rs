//! Parsing and summing.
use crate::activity;
use crate::demo::types::{ParseParams, ParseResult, SumParams, SumResult};
use vstd::prelude::*;
use vstd::string::*;

verus! {

/// Whether `c` is white space, as Unicode has it.
pub open spec fn is_space(c: char) -> bool {
    let code = c as int;
    9 <= code <= 13 || code == 0x20 || code == 0x85 || code == 0xa0 || code == 0x1680 || 0x2000
        <= code <= 0x200a || code == 0x2028 || code == 0x2029 || code == 0x202f || code == 0x205f
        || code == 0x3000
}

fn is_white_space(c: char) -> (space: bool)
    ensures
        space == is_space(c),
{
    let code: u32 = c as u32;
    9 <= code && code <= 13 || code == 0x20 || code == 0x85 || code == 0xa0 || code == 0x1680
        || 0x2000 <= code && code <= 0x200a || code == 0x2028 || code == 0x2029 || code == 0x202f
        || code == 0x205f || code == 0x3000
}

/// The pieces of a text between its white space, in their order.
pub open spec fn tokens(text: Seq<char>) -> Seq<Seq<char>>
    decreases text.len(),
{
    if text.len() == 0 {
        Seq::empty()
    } else {
        let before = tokens(text.drop_last());
        let c = text.last();
        if is_space(c) {
            before
        } else if text.len() == 1 || is_space(text[text.len() - 2]) {
            before.push(seq![c])
        } else {
            before.drop_last().push(before.last().push(c))
        }
    }
}

/// Whether `c` is a decimal digit.
pub open spec fn is_digit(c: char) -> bool {
    '0' <= c <= '9'
}

/// Whether a text is made of decimal digits.
pub open spec fn all_digits(text: Seq<char>) -> bool {
    forall|i: int| 0 <= i < text.len() ==> is_digit(#[trigger] text[i])
}

/// The number that decimal digits stand for.
pub open spec fn digits_value(text: Seq<char>) -> nat
    decreases text.len(),
{
    if text.len() == 0 {
        0
    } else {
        digits_value(text.drop_last()) * 10 + (text.last() as nat - '0' as nat) as nat
    }
}

/// The number that a numeral stands for: decimal digits, with a sign or without one,
/// within the range of a 64-bit integer.
pub open spec fn int_value(numeral: Seq<char>) -> Option<i64> {
    let signed = numeral.len() > 0 && (numeral[0] == '-' || numeral[0] == '+');
    let negative = numeral.len() > 0 && numeral[0] == '-';
    let digits = if signed {
        numeral.skip(1)
    } else {
        numeral
    };
    let value: int = if negative {
        -(digits_value(digits) as int)
    } else {
        digits_value(digits) as int
    };
    if digits.len() > 0 && all_digits(digits) && i64::MIN <= value <= i64::MAX {
        Some(value as i64)
    } else {
        None
    }
}

/// Why a piece does not parse.
pub open spec fn parse_failure(token: Seq<char>) -> Seq<char> {
    "could not parse '"@ + token + "' as an integer"@
}

/// The numbers that pieces stand for, or what is wrong with the first that stands for
/// none.
pub open spec fn values(pieces: Seq<Seq<char>>) -> Result<Seq<i64>, Seq<char>>
    decreases pieces.len(),
{
    if pieces.len() == 0 {
        Ok(Seq::empty())
    } else {
        match values(pieces.drop_last()) {
            Err(e) => Err(e),
            Ok(before) => match int_value(pieces.last()) {
                Some(v) => Ok(before.push(v)),
                None => Err(parse_failure(pieces.last())),
            },
        }
    }
}

/// A failure among the first pieces stays.
proof fn lemma_failure_stays(pieces: Seq<Seq<char>>, n: int)
    requires
        0 <= n <= pieces.len(),
        values(pieces.take(n)) is Err,
    ensures
        values(pieces) == values(pieces.take(n)),
    decreases pieces.len(),
{
    if n == pieces.len() {
        assert(pieces.take(n) =~= pieces);
    } else {
        assert(pieces.drop_last().take(n) =~= pieces.take(n));
        lemma_failure_stays(pieces.drop_last(), n);
    }
}

/// A piece that white space follows is complete: it stays whatever comes.
proof fn lemma_pieces_stay(text: Seq<char>, k: int, j: int)
    requires
        0 <= k < j <= text.len(),
        is_space(text[k]),
    ensures
        tokens(text.take(k)).len() <= tokens(text.take(j)).len(),
        tokens(text.take(j)).take(tokens(text.take(k)).len() as int) == tokens(text.take(k)),
        tokens(text.take(j)).len() == tokens(text.take(k)).len() ==> is_space(text[j - 1]),
    decreases j,
{
    let first = tokens(text.take(k));
    let now = tokens(text.take(j));
    assert(text.take(j).drop_last() =~= text.take(j - 1));
    assert(text.take(j).last() == text[j - 1]);
    if j == k + 1 {
        assert(now.take(first.len() as int) =~= first);
    } else {
        lemma_pieces_stay(text, k, j - 1);
        let before = tokens(text.take(j - 1));
        assert(text.take(j)[text.take(j).len() - 2] == text[j - 2]);
        if is_space(text[j - 1]) {
        } else if is_space(text[j - 2]) {
            assert(now.take(first.len() as int) =~= first);
        } else {
            assert(before.len() > first.len());
            assert(now.take(first.len() as int) =~= before.take(first.len() as int));
        }
    }
}

/// The number that the characters from `start` to `end` stand for.
fn parse_i64(chars: &Vec<char>, start: usize, end: usize) -> (value: Option<i64>)
    requires
        start <= end <= chars@.len(),
    ensures
        value == int_value(chars@.subrange(start as int, end as int)),
{
    let ghost numeral = chars@.subrange(start as int, end as int);
    if start == end {
        return None;
    }
    let negative = chars[start] == '-';
    let signed = negative || chars[start] == '+';
    let first: usize = if signed {
        start + 1
    } else {
        start
    };
    let ghost digits = chars@.subrange(first as int, end as int);
    assert(digits =~= if signed {
        numeral.skip(1)
    } else {
        numeral
    });
    if first == end {
        return None;
    }
    let mut value: i128 = 0;
    let mut i: usize = first;
    let limit: i128 = 0x8000_0000_0000_0000;
    let mut over = false;
    assert(chars@.subrange(first as int, i as int) =~= Seq::empty());
    while i < end
        invariant
            first <= i <= end <= chars@.len(),
            start < end,
            numeral == chars@.subrange(start as int, end as int),
            negative == (numeral[0] == '-'),
            signed == (negative || numeral[0] == '+'),
            digits == (if signed {
                numeral.skip(1)
            } else {
                numeral
            }),
            digits == chars@.subrange(first as int, end as int),
            limit == 0x8000_0000_0000_0000,
            forall|k: int| 0 <= k < i - first ==> is_digit(#[trigger] digits[k]),
            0 <= value <= limit,
            !over ==> value == digits_value(digits.take(i - first)),
            over ==> digits_value(digits.take(i - first)) > limit,
        decreases end - i,
    {
        let c = chars[i];
        assert(c == digits[i - first]);
        if c < '0' || '9' < c {
            assert(!is_digit(digits[i - first]));
            return None;
        }
        let d: i128 = (c as u32 - '0' as u32) as i128;
        proof {
            let next = digits.take(i + 1 - first);
            assert(next.drop_last() =~= digits.take(i - first));
            assert(next.last() == c);
            assert(digits_value(next) == digits_value(digits.take(i - first)) * 10 + (c as nat
                - '0' as nat) as nat);
        }
        if !over {
            let grown: i128 = value * 10 + d;
            if grown > limit {
                over = true;
            } else {
                value = grown;
            }
        }
        i = i + 1;
    }
    assert(digits.take(i - first) =~= digits);
    assert(all_digits(digits));
    if over {
        return None;
    }
    let signed_value: i128 = if negative {
        -value
    } else {
        value
    };
    if signed_value > 0x7fff_ffff_ffff_ffff {
        None
    } else {
        Some(signed_value as i64)
    }
}

/// The contents of a parse.
pub open spec fn parse_view(parsed: Result<Vec<i64>, String>) -> Result<Seq<i64>, Seq<char>> {
    match parsed {
        Ok(values) => Ok(values@),
        Err(message) => Err(message@),
    }
}

fn failure(text: &str, start: usize, end: usize) -> (message: String)
    requires
        start <= end <= text@.len(),
    ensures
        message@ == parse_failure(text@.subrange(start as int, end as int)),
{
    let mut message = String::from_str("could not parse '");
    message.append(text.substring_char(start, end));
    message.append("' as an integer");
    message
}

/// The integers of a text, which white space keeps apart. The first piece that is no
/// integer is the error; a text without pieces has no integers.
pub fn parse_ints(text: &str) -> (parsed: Result<Vec<i64>, String>)
    ensures
        parse_view(parsed) == values(tokens(text@)),
{
    let len: usize = text.unicode_len();
    let mut chars: Vec<char> = Vec::new();
    let mut i: usize = 0;
    while i < len
        invariant
            len == text@.len(),
            i <= len,
            chars@ == text@.take(i as int),
        decreases len - i,
    {
        chars.push(text.get_char(i));
        assert(chars@ =~= text@.take(i + 1));
        i = i + 1;
    }
    assert(chars@ =~= text@);

    let mut found: Vec<i64> = Vec::new();
    let mut open = false;
    let mut start: usize = 0;
    let mut i: usize = 0;
    assert(text@.take(0) =~= Seq::empty());
    assert(tokens(text@.take(0)) =~= Seq::empty());
    let ghost mut done: Seq<Seq<char>> = Seq::empty();
    while i < len
        invariant
            len == text@.len(),
            chars@ == text@,
            i <= len,
            values(done) == Ok::<Seq<i64>, Seq<char>>(found@),
            open ==> start < i && tokens(text@.take(i as int)) == done.push(
                text@.subrange(start as int, i as int),
            ) && !is_space(text@[i - 1]),
            !open ==> tokens(text@.take(i as int)) == done && (i == 0 || is_space(text@[i - 1])),
        decreases len - i,
    {
        let c = chars[i];
        let ghost now = text@.take(i as int);
        proof {
            let next = text@.take(i + 1);
            assert(next.drop_last() =~= now);
            assert(next.last() == c);
            if i > 0 {
                assert(next[next.len() - 2] == text@[i - 1]);
            }
        }
        if is_white_space(c) {
            if open {
                let ghost token = text@.subrange(start as int, i as int);
                assert(done.push(token).drop_last() =~= done);
                match parse_i64(&chars, start, i) {
                    Some(value) => {
                        found.push(value);
                    },
                    None => {
                        proof {
                            lemma_pieces_stay(text@, i as int, len as int);
                            assert(text@.take(len as int) =~= text@);
                            let n = tokens(now).len() as int;
                            assert(tokens(text@).take(n) == done.push(token));
                            lemma_failure_stays(tokens(text@), n);
                        }
                        return Err(failure(text, start, i));
                    },
                }
                open = false;
                proof {
                    done = done.push(token);
                }
            }
        } else {
            if !open {
                open = true;
                start = i;
                assert(text@.subrange(start as int, i + 1) =~= seq![c]);
            } else {
                proof {
                    let token = text@.subrange(start as int, i as int);
                    assert(text@.subrange(start as int, i + 1) =~= token.push(c));
                    assert(done.push(token).drop_last() =~= done);
                    assert(done.push(token).last() == token);
                }
            }
        }
        i = i + 1;
    }
    assert(text@.take(i as int) =~= text@);
    if open {
        let ghost token = text@.subrange(start as int, i as int);
        assert(done.push(token).drop_last() =~= done);
        match parse_i64(&chars, start, i) {
            Some(value) => {
                found.push(value);
            },
            None => {
                return Err(failure(text, start, i));
            },
        }
    }
    Ok(found)
}

/// Parses a text into integers.
pub struct Parse;

impl Parse {
    /// The integers of a text. A text that does not parse is a failure that no retry
    /// can mend.
    pub fn run(&self, params: ParseParams) -> (result: Result<ParseResult, activity::Error>)
        ensures
            match values(tokens(params.text@)) {
                Ok(v) => result matches Ok(r) && r.values@ == v,
                Err(message) => result matches Err(e) && e@ == activity::error::fatal_error(
                    message,
                ) && e.message@ == message && e.non_retryable,
            },
    {
        match parse_ints(params.text.as_str()) {
            Ok(values) => Ok(ParseResult { values }),
            Err(message) => Err(activity::Error::fatal(message.as_str())),
        }
    }
}

/// Sums integers.
pub struct SumActivity;

/// The sum of integers.
pub open spec fn sum(values: Seq<i64>) -> int
    decreases values.len(),
{
    if values.len() == 0 {
        0
    } else {
        sum(values.drop_last()) + values.last()
    }
}

/// Whether integers can be added up in their order within the range of a 64-bit
/// integer.
pub open spec fn sums_fit(values: Seq<i64>) -> bool {
    forall|n: int| 0 <= n <= values.len() ==> i64::MIN <= sum(#[trigger] values.take(n)) <= i64::MAX
}

impl SumActivity {
    /// The sum of integers, if they can be added up in their order without leaving the
    /// range.
    pub fn run(&self, params: SumParams) -> (result: Option<SumResult>)
        ensures
            match result {
                Some(r) => sums_fit(params.values@) && r.total == sum(params.values@),
                None => !sums_fit(params.values@),
            },
    {
        let values = &params.values;
        let mut total: i64 = 0;
        let mut i: usize = 0;
        assert(values@.take(0) =~= Seq::empty());
        while i < values.len()
            invariant
                values@ == params.values@,
                i <= values.len(),
                total == sum(values@.take(i as int)),
                forall|n: int|
                    0 <= n <= i ==> i64::MIN <= sum(#[trigger] values@.take(n)) <= i64::MAX,
            decreases values.len() - i,
        {
            proof {
                let next = values@.take(i + 1);
                assert(next.drop_last() =~= values@.take(i as int));
                assert(next.last() == values@[i as int]);
            }
            match total.checked_add(values[i]) {
                Some(t) => {
                    total = t;
                },
                None => {
                    assert(!(i64::MIN <= sum(values@.take(i + 1)) <= i64::MAX));
                    return None;
                },
            }
            i = i + 1;
        }
        assert(values@.take(i as int) =~= values@);
        Some(SumResult { total })
    }
}

} // verus!
