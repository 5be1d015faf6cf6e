//! What holds of every sum and of every text that is parsed.
use crate::demo::activities::{
    all_digits, digits_value, int_value, is_digit, is_space, parse_failure, sum, sums_fit, tokens,
    values,
};
use crate::text::{decimal, negative_numerals_have_a_sign, numerals_go_by_tens, signed_decimal};
use vstd::arithmetic::power::{lemma_pow1, lemma_pow_adds, pow};
use vstd::prelude::*;

verus! {

/// Sums are additive: nothing sums to zero, one number to itself, and two lists, one
/// after the other and in either order, to the sum of their sums.
pub proof fn sums_are_additive(a: Seq<i64>, b: Seq<i64>, v: i64)
    ensures
        sum(Seq::<i64>::empty()) == 0,
        sum(seq![v]) == v,
        sum(a + b) == sum(a) + sum(b),
        sum(a + b) == sum(b + a),
{
    lemma_sum_of_both(a, b);
    lemma_sum_of_both(b, a);
    assert(seq![v].drop_last() =~= Seq::<i64>::empty());
    assert(sum(seq![v].drop_last()) == 0);
}

proof fn lemma_sum_of_both(a: Seq<i64>, b: Seq<i64>)
    ensures
        sum(a + b) == sum(a) + sum(b),
    decreases b.len(),
{
    if b.len() == 0 {
        assert(a + b =~= a);
    } else {
        assert((a + b).drop_last() =~= a + b.drop_last());
        lemma_sum_of_both(a, b.drop_last());
    }
}

/// Every number counts once, wherever it stands: to put another in its place changes
/// the sum by their difference.
pub proof fn every_number_counts(values: Seq<i64>, i: int, v: i64)
    requires
        0 <= i < values.len(),
    ensures
        sum(values.update(i, v)) == sum(values) - values[i] + v,
{
    let before = values.take(i);
    let after = values.skip(i + 1);
    assert(values =~= before + (seq![values[i]] + after));
    assert(values.update(i, v) =~= before + (seq![v] + after));
    sums_are_additive(before, seq![values[i]] + after, v);
    sums_are_additive(seq![values[i]], after, values[i]);
    sums_are_additive(before, seq![v] + after, v);
    sums_are_additive(seq![v], after, v);
}

/// A number that stands `n` times in a list, and no other number, makes `n` times the
/// number.
pub proof fn equal_numbers_multiply(values: Seq<i64>, v: i64)
    requires
        forall|i: int| 0 <= i < values.len() ==> #[trigger] values[i] == v,
    ensures
        sum(values) == values.len() * v,
    decreases values.len(),
{
    if values.len() > 0 {
        let before = values.drop_last();
        assert forall|i: int| 0 <= i < before.len() implies #[trigger] before[i] == v by {
            assert(values[i] == v);
        }
        equal_numbers_multiply(before, v);
        assert(values.last() == v);
        assert(values.len() * v == before.len() * v + v) by (nonlinear_arith)
            requires
                values.len() == before.len() + 1,
        ;
    }
}

/// A further number can be added exactly when the numbers before it can be, and the
/// grown sum is within 64 bits.
pub proof fn sums_fit_step_by_step(values: Seq<i64>, v: i64)
    ensures
        sums_fit(Seq::empty()),
        sums_fit(values.push(v)) <==> sums_fit(values) && i64::MIN <= sum(values) + v <= i64::MAX,
{
    let more = values.push(v);
    assert forall|n: int| 0 <= n <= Seq::<i64>::empty().len() implies i64::MIN <= sum(
        #[trigger] Seq::<i64>::empty().take(n),
    ) <= i64::MAX by {
        assert(Seq::<i64>::empty().take(n) =~= Seq::empty());
    }
    assert(more.drop_last() =~= values);
    assert(sum(more) == sum(values) + v);
    assert forall|n: int| 0 <= n <= values.len() implies #[trigger] values.take(n) == more.take(
        n,
    ) by {
        assert(values.take(n) =~= more.take(n));
    }
    assert(more.take(more.len() as int) =~= more);
    if sums_fit(more) {
        assert forall|n: int| 0 <= n <= values.len() implies i64::MIN <= sum(
            #[trigger] values.take(n),
        ) <= i64::MAX by {
            assert(values.take(n) == more.take(n));
        }
    }
    if sums_fit(values) && i64::MIN <= sum(values) + v <= i64::MAX {
        assert forall|n: int| 0 <= n <= more.len() implies i64::MIN <= sum(#[trigger] more.take(n))
            <= i64::MAX by {
            if n <= values.len() {
                assert(values.take(n) == more.take(n));
            }
        }
    }
}

/// Digits count by their places: one digit is its own value, and digits before others
/// are worth ten times as much for each of those.
pub proof fn digits_count_by_place(a: Seq<char>, b: Seq<char>, d: char)
    ensures
        digits_value(Seq::empty()) == 0,
        '0' <= d <= '9' ==> digits_value(seq![d]) == d as int - '0' as int,
        all_digits(b) ==> digits_value(a + b) == digits_value(a) * pow(10, b.len())
            + digits_value(b),
    decreases b.len(),
{
    assert(seq![d].drop_last() =~= Seq::<char>::empty());
    assert(digits_value(seq![d].drop_last()) == 0);
    if b.len() == 0 {
        assert(a + b =~= a);
        reveal(pow);
    } else if all_digits(b) {
        let before = b.drop_last();
        let last = b.last() as int - '0' as int;
        assert(is_digit(b[b.len() - 1]));
        assert forall|i: int| 0 <= i < before.len() implies is_digit(#[trigger] before[i]) by {
            assert(before[i] == b[i]);
        }
        digits_count_by_place(a, before, d);
        assert((a + b).drop_last() =~= a + before);
        lemma_pow_adds(10, before.len(), 1);
        lemma_pow1(10);
        let p = pow(10, before.len());
        assert((digits_value(a) * p + digits_value(before)) * 10 + last == digits_value(a) * (p
            * 10) + (digits_value(before) * 10 + last)) by (nonlinear_arith);
    }
}

/// What is no numeral has no value: an empty text, a sign alone, and any text with a
/// character that is no digit, other than a sign in the first place.
pub proof fn only_numerals_have_a_value(text: Seq<char>, i: int)
    ensures
        int_value(Seq::empty()) is None,
        text.len() == 1 && !('0' <= text[0] <= '9') ==> int_value(text) is None,
        0 < i < text.len() && !('0' <= text[i] <= '9') ==> int_value(text) is None,
        text.len() > 0 && text[0] != '-' && text[0] != '+' && !('0' <= text[0] <= '9')
            ==> int_value(text) is None,
{
    if 0 < i < text.len() && !('0' <= text[i] <= '9') {
        assert(text.skip(1)[i - 1] == text[i]);
        assert(!is_digit(text[i]));
    }
    if text.len() > 0 && text[0] != '-' && text[0] != '+' && !('0' <= text[0] <= '9') {
        assert(!is_digit(text[0]));
    }
}

/// A plus sign changes nothing, a minus sign makes the number negative, and a zero in
/// front of digits changes nothing.
pub proof fn signs_and_zeros_in_front(digits: Seq<char>)
    requires
        digits.len() > 0,
        '0' <= digits[0] <= '9',
    ensures
        int_value(seq!['+'] + digits) == int_value(digits),
        int_value(seq!['0'] + digits) == int_value(digits),
        int_value(digits) matches Some(v) ==> v >= 0 && int_value(seq!['-'] + digits) == Some(
            (-v) as i64,
        ),
{
    assert((seq!['+'] + digits).skip(1) =~= digits);
    assert((seq!['-'] + digits).skip(1) =~= digits);
    let padded = seq!['0'] + digits;
    if all_digits(digits) {
        digits_count_by_place(seq!['0'], digits, '0');
        assert(0 * pow(10, digits.len()) == 0);
        assert forall|i: int| 0 <= i < padded.len() implies is_digit(#[trigger] padded[i]) by {
            if i > 0 {
                assert(padded[i] == digits[i - 1]);
            }
        }
        if digits_value(digits) <= i64::MAX {
            assert(int_value(digits) == Some(digits_value(digits) as i64));
        }
    } else {
        let i = choose|i: int| 0 <= i < digits.len() && !is_digit(#[trigger] digits[i]);
        assert(padded[i + 1] == digits[i]);
        assert(!all_digits(padded));
    }
}

/// Digits have their value as long as 64 bits hold it, with or without a minus sign, and
/// none past that.
pub proof fn values_are_exact_or_none(digits: Seq<char>)
    requires
        digits.len() > 0,
        forall|i: int| 0 <= i < digits.len() ==> '0' <= #[trigger] digits[i] <= '9',
    ensures
        match int_value(digits) {
            Some(v) => v == digits_value(digits),
            None => digits_value(digits) > i64::MAX,
        },
        match int_value(seq!['-'] + digits) {
            Some(v) => v == -(digits_value(digits) as int),
            None => -(digits_value(digits) as int) < i64::MIN,
        },
{
    assert((seq!['-'] + digits).skip(1) =~= digits);
    assert forall|i: int| 0 <= i < digits.len() implies is_digit(#[trigger] digits[i]) by {}
    assert(all_digits(digits));
    assert('0' <= digits[0] <= '9');
}

proof fn lemma_numeral_value(n: nat)
    ensures
        all_digits(decimal(n)),
        digits_value(decimal(n)) == n,
    decreases n,
{
    numerals_go_by_tens(n, 0);
    if n >= 10 {
        lemma_numeral_value(n / 10);
        assert(decimal(n).drop_last() =~= decimal(n / 10));
    } else {
        assert(decimal(n).drop_last() =~= Seq::<char>::empty());
        assert(digits_value(decimal(n).drop_last()) == 0);
    }
}

/// A number that is written down and parsed comes back.
pub proof fn numerals_read_back(n: i64)
    ensures
        int_value(signed_decimal(n as int)) == Some(n),
        forall|i: int|
            0 <= i < signed_decimal(n as int).len() ==> !is_space(
                #[trigger] signed_decimal(n as int)[i],
            ),
{
    let text = signed_decimal(n as int);
    if n < 0 {
        negative_numerals_have_a_sign((-n) as nat);
        lemma_numeral_value((-n) as nat);
        assert forall|i: int| 0 <= i < text.len() implies !is_space(#[trigger] text[i]) by {
            if i > 0 {
                assert(text.skip(1)[i - 1] == text[i]);
                assert(is_digit(decimal((-n) as nat)[i - 1]));
            }
        }
    } else {
        negative_numerals_have_a_sign(n as nat);
        lemma_numeral_value(n as nat);
        numerals_go_by_tens(n as nat, 0);
        assert forall|i: int| 0 <= i < text.len() implies !is_space(#[trigger] text[i]) by {
            assert(is_digit(decimal(n as nat)[i]));
        }
        assert(is_digit(text[0]));
    }
}

/// No digit, sign, letter or other visible character of ASCII is white space; the
/// space, the tab and the ends of lines are. Of the other characters, the white space is
/// that of Unicode: two in Latin-1, one in Ogham, the eleven spaces from the en quad to
/// the hair space, the two separators, and three more.
pub proof fn white_space_is_that_of_unicode(c: char)
    ensures
        '!' <= c <= '~' ==> !is_space(c),
        c == ' ' || c == '\t' || c == '\n' || c == '\r' ==> is_space(c),
        c as int == 0x0b || c as int == 0x0c ==> is_space(c),
        (c as int) < 0x20 && !(9 <= c as int <= 13) ==> !is_space(c),
        c as int == 0x85 || c as int == 0xa0 || c as int == 0x1680 ==> is_space(c),
        0x2000 <= c as int <= 0x200a ==> is_space(c),
        c as int == 0x2028 || c as int == 0x2029 ==> is_space(c),
        c as int == 0x202f || c as int == 0x205f || c as int == 0x3000 ==> is_space(c),
        is_space(c) && c as int > 0xa0 ==> c as int == 0x1680 || 0x2000 <= c as int <= 0x200a
            || 0x2028 <= c as int <= 0x2029 || c as int == 0x202f || c as int == 0x205f || c as int
            == 0x3000,
        is_space(c) && '~' < c ==> c as int == 0x85 || c as int >= 0xa0,
{
}

/// A text falls into its pieces at white space: a text without any is one piece, if it
/// is not empty, and white space between two texts keeps their pieces apart.
pub proof fn white_space_keeps_pieces_apart(a: Seq<char>, space: char, b: Seq<char>)
    requires
        is_space(space),
    ensures
        tokens(Seq::empty()) == Seq::<Seq<char>>::empty(),
        tokens(a + seq![space] + b) == tokens(a) + tokens(b),
        a.len() > 0 && (forall|i: int| 0 <= i < a.len() ==> !is_space(#[trigger] a[i]))
            ==> tokens(a) == seq![a],
{
    lemma_pieces_of_both(a, space, b);
    if a.len() > 0 && (forall|i: int| 0 <= i < a.len() ==> !is_space(#[trigger] a[i])) {
        lemma_one_piece(a);
    }
}

proof fn lemma_pieces_of_both(a: Seq<char>, space: char, b: Seq<char>)
    requires
        is_space(space),
    ensures
        tokens(a + seq![space] + b) == tokens(a) + tokens(b),
        b.len() > 0 && !is_space(b.last()) ==> tokens(b).len() > 0,
    decreases b.len(),
{
    let whole = a + seq![space] + b;
    if b.len() == 0 {
        assert(whole.drop_last() =~= a);
        assert(whole.last() == space);
        assert(tokens(a) + tokens(b) =~= tokens(a));
    } else {
        let before = b.drop_last();
        lemma_pieces_of_both(a, space, before);
        assert(whole.drop_last() =~= a + seq![space] + before);
        assert(whole.last() == b.last());
        let c = b.last();
        if b.len() == 1 {
            assert(whole[whole.len() - 2] == space);
            assert(tokens(before) =~= Seq::empty());
        } else {
            assert(whole[whole.len() - 2] == b[b.len() - 2]);
        }
        if is_space(c) {
        } else if b.len() == 1 || is_space(b[b.len() - 2]) {
            assert((tokens(a) + tokens(before)).push(seq![c]) =~= tokens(a) + tokens(before).push(
                seq![c],
            ));
        } else {
            assert(before.last() == b[b.len() - 2]);
            let all = tokens(a) + tokens(before);
            assert(all.last() == tokens(before).last());
            assert(all.drop_last().push(all.last().push(c)) =~= tokens(a)
                + tokens(before).drop_last().push(tokens(before).last().push(c)));
        }
    }
}

proof fn lemma_one_piece(a: Seq<char>)
    requires
        a.len() > 0,
        forall|i: int| 0 <= i < a.len() ==> !is_space(#[trigger] a[i]),
    ensures
        tokens(a) == seq![a],
    decreases a.len(),
{
    let before = a.drop_last();
    let c = a.last();
    assert(!is_space(a[a.len() - 1]));
    if a.len() == 1 {
        assert(tokens(before) =~= Seq::empty());
        assert(seq![c] =~= a);
        assert(tokens(a) =~= seq![a]);
    } else {
        assert forall|i: int| 0 <= i < before.len() implies !is_space(#[trigger] before[i]) by {
            assert(before[i] == a[i]);
        }
        lemma_one_piece(before);
        assert(!is_space(a[a.len() - 2]));
        assert(before.push(c) =~= a);
        assert(tokens(a) =~= seq![a]);
    }
}

/// Pieces are parsed one by one: if all are numerals, their numbers come out in their
/// order, and otherwise the first that is none is named.
pub proof fn pieces_are_parsed_one_by_one(pieces: Seq<Seq<char>>)
    ensures
        match values(pieces) {
            Ok(numbers) => numbers.len() == pieces.len() && forall|i: int|
                0 <= i < pieces.len() ==> int_value(#[trigger] pieces[i]) == Some(numbers[i]),
            Err(message) => exists|i: int|
                0 <= i < pieces.len() && int_value(#[trigger] pieces[i]) is None && message
                    == "could not parse '"@ + pieces[i] + "' as an integer"@ && forall|j: int|
                    0 <= j < i ==> int_value(#[trigger] pieces[j]) is Some,
        },
    decreases pieces.len(),
{
    if pieces.len() > 0 {
        let before = pieces.drop_last();
        pieces_are_parsed_one_by_one(before);
        match values(before) {
            Err(message) => {
                let i = choose|i: int|
                    0 <= i < before.len() && int_value(#[trigger] before[i]) is None && message
                        == "could not parse '"@ + before[i] + "' as an integer"@ && forall|j: int|
                        0 <= j < i ==> int_value(#[trigger] before[j]) is Some;
                assert forall|j: int| 0 <= j < i implies int_value(#[trigger] pieces[j]) is Some by {
                    assert(before[j] == pieces[j]);
                }
                assert(int_value(pieces[i]) is None);
            },
            Ok(numbers) => {
                assert forall|j: int| 0 <= j < before.len() implies int_value(#[trigger] pieces[j])
                    == Some(numbers[j]) by {
                    assert(before[j] == pieces[j]);
                }
                let last = pieces.len() - 1;
                if int_value(pieces[last]) is None {
                    assert(values(pieces) == Err::<Seq<i64>, Seq<char>>(
                        parse_failure(pieces[last]),
                    ));
                }
            },
        }
    }
}

/// Numbers written down with a space after each.
pub open spec fn written(numbers: Seq<i64>) -> Seq<char>
    decreases numbers.len(),
{
    if numbers.len() == 0 {
        Seq::empty()
    } else {
        written(numbers.drop_last()) + signed_decimal(numbers.last() as int) + seq![' ']
    }
}

/// Numbers that are written down and parsed come back, each of them and in their
/// order.
pub proof fn written_numbers_read_back(numbers: Seq<i64>)
    ensures
        values(tokens(written(numbers))) == Ok::<Seq<i64>, Seq<char>>(numbers),
        tokens(written(numbers)).len() == numbers.len(),
        numbers.len() > 0 ==> written(numbers).last() == ' ',
    decreases numbers.len(),
{
    if numbers.len() == 0 {
        assert(numbers =~= Seq::empty());
    } else {
        let before = numbers.drop_last();
        let numeral = signed_decimal(numbers.last() as int);
        written_numbers_read_back(before);
        numerals_read_back(numbers.last());
        if numbers.last() >= 0 {
            numerals_go_by_tens(numbers.last() as nat, 0);
        }
        lemma_one_piece(numeral);
        let text = written(before) + numeral;
        assert(tokens(text) == tokens(written(before)).push(numeral)) by {
            if before.len() == 0 {
                assert(text =~= numeral);
                assert(tokens(written(before)) =~= Seq::empty());
                assert(seq![numeral] =~= tokens(written(before)).push(numeral));
            } else {
                let head = written(before).drop_last();
                assert(text =~= head + seq![' '] + numeral);
                lemma_pieces_of_both(head, ' ', numeral);
                assert(tokens(written(before)) == tokens(head));
                assert(tokens(head) + seq![numeral] =~= tokens(head).push(numeral));
            }
        }
        assert(written(numbers) =~= text + seq![' ']);
        assert((text + seq![' ']).drop_last() =~= text);
        let pieces = tokens(written(before)).push(numeral);
        assert(pieces.drop_last() =~= tokens(written(before)));
        assert(before.push(numbers.last()) =~= numbers);
    }
}

} // verus!
