use vstd::prelude::*;
use vstd::std_specs::iter::IteratorSpec;

verus! {

/// The character of a decimal digit.
pub open spec fn digit_char(digit: int) -> char {
    if digit == 0 {
        '0'
    } else if digit == 1 {
        '1'
    } else if digit == 2 {
        '2'
    } else if digit == 3 {
        '3'
    } else if digit == 4 {
        '4'
    } else if digit == 5 {
        '5'
    } else if digit == 6 {
        '6'
    } else if digit == 7 {
        '7'
    } else if digit == 8 {
        '8'
    } else {
        '9'
    }
}

/// A number that is not negative, written in decimal digits.
pub open spec fn digits_text(value: int) -> Seq<char>
    decreases value,
{
    if value < 10 {
        seq![digit_char(value)]
    } else {
        digits_text(value / 10).push(digit_char(value % 10))
    }
}

/// A number written in decimal digits, with a minus sign before it if it is negative.
pub open spec fn decimal_text(value: int) -> Seq<char> {
    if value < 0 {
        seq!['-'] + digits_text(-value)
    } else {
        digits_text(value)
    }
}

/// As many copies of a character as asked for.
pub open spec fn repeated(character: char, count: int) -> Seq<char> {
    Seq::new(
        if count > 0 {
            count as nat
        } else {
            0
        },
        |k: int| character,
    )
}

/// A text moved to the right by blanks until it is `width` characters long.
pub open spec fn padded_text(text: Seq<char>, width: int) -> Seq<char> {
    repeated(' ', width - text.len()) + text
}

/// The numbers of a list, written between square brackets and parted by a comma and a blank.
pub open spec fn list_text(values: Seq<i64>) -> Seq<char> {
    seq!['['] + list_body(values, values.len() as int) + seq![']']
}

/// The first `count` numbers of a list, parted by a comma and a blank.
pub open spec fn list_body(values: Seq<i64>, count: int) -> Seq<char>
    decreases count,
{
    if count <= 0 {
        Seq::empty()
    } else if count == 1 {
        decimal_text(values[0] as int)
    } else {
        list_body(values, count - 1) + seq![',', ' '] + decimal_text(values[count - 1] as int)
    }
}

/// The text of one decimal digit.
fn digit_text(digit: u64) -> (text: &'static str)
    requires
        digit < 10,
    ensures
        text@ == seq![digit_char(digit as int)],
{
    proof {
        reveal_strlit("0");
        reveal_strlit("1");
        reveal_strlit("2");
        reveal_strlit("3");
        reveal_strlit("4");
        reveal_strlit("5");
        reveal_strlit("6");
        reveal_strlit("7");
        reveal_strlit("8");
        reveal_strlit("9");
    }
    let text = if digit == 0 {
        "0"
    } else if digit == 1 {
        "1"
    } else if digit == 2 {
        "2"
    } else if digit == 3 {
        "3"
    } else if digit == 4 {
        "4"
    } else if digit == 5 {
        "5"
    } else if digit == 6 {
        "6"
    } else if digit == 7 {
        "7"
    } else if digit == 8 {
        "8"
    } else {
        "9"
    };
    assert(text@ =~= seq![digit_char(digit as int)]);
    text
}

/// Write a number that is not negative at the end of a text.
pub fn append_digits(text: &mut String, value: u64)
    ensures
        final(text)@ == old(text)@ + digits_text(value as int),
    decreases value,
{
    if value >= 10 {
        append_digits(text, value / 10);
    }
    text.append(digit_text(value % 10));
    assert(text@ =~= old(text)@ + digits_text(value as int));
}

/// Write a number at the end of a text.
pub fn append_decimal(text: &mut String, value: i64)
    ensures
        final(text)@ == old(text)@ + decimal_text(value as int),
{
    if value < 0 {
        proof {
            reveal_strlit("-");
        }
        text.append("-");
        let magnitude: u64 = if value == i64::MIN {
            0x8000_0000_0000_0000
        } else {
            (-value) as u64
        };
        append_digits(text, magnitude);
        assert(text@ =~= old(text)@ + decimal_text(value as int));
    } else {
        append_digits(text, value as u64);
    }
}

/// How many digits a number that is not negative takes.
pub fn count_digits(value: u64) -> (count: usize)
    ensures
        count == digits_text(value as int).len(),
        1 <= count <= 20,
{
    let mut count: usize = 1;
    let mut rest: u64 = value;
    while rest >= 10
        invariant
            1 <= count,
            count + digits_text(rest as int).len() == 1 + digits_text(value as int).len(),
            rest * pow10((count - 1) as nat) <= value,
            count <= 20,
        decreases rest,
    {
        proof {
            pow10_grows((count - 1) as nat);
            assert(pow10(count as nat) == 10 * pow10((count - 1) as nat));
            assert((rest / 10) * pow10(count as nat) <= value) by (nonlinear_arith)
                requires
                    rest * pow10((count - 1) as nat) <= value,
                    pow10(count as nat) == 10 * pow10((count - 1) as nat),
                    0 <= pow10((count - 1) as nat),
                    (rest / 10) * 10 <= rest,
            ;
            if count == 20 {
                reveal_with_fuel(pow10, 21);
                assert(pow10(20) == 100_000_000_000_000_000_000);
                assert((rest / 10) * pow10(20) >= pow10(20)) by (nonlinear_arith)
                    requires
                        rest / 10 >= 1,
                        pow10(20) >= 0,
                ;
            }
        }
        rest = rest / 10;
        count += 1;
    }
    count
}

/// Ten to a power.
pub open spec fn pow10(exponent: nat) -> int
    decreases exponent,
{
    if exponent == 0 {
        1
    } else {
        10 * pow10((exponent - 1) as nat)
    }
}

/// Powers of ten are positive.
pub proof fn pow10_grows(exponent: nat)
    ensures
        pow10(exponent) >= 1,
    decreases exponent,
{
    if exponent > 0 {
        pow10_grows((exponent - 1) as nat);
    }
}

/// Write a character several times at the end of a text.
pub fn append_repeated(text: &mut String, piece: &str, character: char, count: usize)
    requires
        piece@ == seq![character],
    ensures
        final(text)@ == old(text)@ + repeated(character, count as int),
{
    let mut k: usize = 0;
    assert(text@ =~= old(text)@ + repeated(character, 0));
    while k < count
        invariant
            k <= count,
            piece@ == seq![character],
            text@ == old(text)@ + repeated(character, k as int),
        decreases count - k,
    {
        text.append(piece);
        assert(text@ =~= old(text)@ + repeated(character, k + 1));
        k += 1;
    }
}

/// Write the numbers of a list at the end of a text, between square brackets and parted by
/// a comma and a blank.
pub fn append_list(text: &mut String, values: &Vec<i64>)
    ensures
        final(text)@ == old(text)@ + list_text(values@),
{
    proof {
        reveal_strlit("[");
        reveal_strlit(", ");
        reveal_strlit("]");
    }
    text.append("[");
    let mut k: usize = 0;
    assert(text@ =~= old(text)@ + seq!['['] + list_body(values@, 0));
    while k < values.len()
        invariant
            k <= values@.len(),
            text@ == old(text)@ + seq!['['] + list_body(values@, k as int),
            ", "@ == seq![',', ' '],
        decreases values@.len() - k,
    {
        if k > 0 {
            text.append(", ");
        }
        append_decimal(text, values[k]);
        assert(text@ =~= old(text)@ + seq!['['] + list_body(values@, k + 1));
        k += 1;
    }
    text.append("]");
    assert(text@ =~= old(text)@ + list_text(values@));
}

/// The characters of a text, one by one.
pub fn chars_of(text: &str) -> (characters: Vec<char>)
    ensures
        characters@ == text@,
{
    broadcast use vstd::string::axiom_spec_iter, vstd::string::next_postcondition;

    let mut characters: Vec<char> = Vec::new();
    let mut rest = text.chars();
    assert(characters@ + rest.remaining() =~= text@);
    loop
        invariant
            rest.obeys_prophetic_iter_laws(),
            rest.decrease() is Some,
            characters@ + rest.remaining() == text@,
        ensures
            characters@ == text@,
        decreases rest.decrease()->0,
    {
        let ghost before = rest;
        match rest.next() {
            Some(character) => {
                characters.push(character);
                assert(characters@ + rest.remaining() =~= text@);
            },
            None => {
                assert(characters@ =~= text@);
                break ;
            },
        }
    }
    characters
}

/// The fields of a text that a separator parts: one more than there are separators, each
/// holding the characters between two of them.
pub open spec fn split_on(text: Seq<char>, separator: char) -> Seq<Seq<char>>
    decreases text.len(),
{
    if text.len() == 0 {
        seq![Seq::empty()]
    } else {
        let fields = split_on(text.drop_last(), separator);
        if text.last() == separator {
            fields.push(Seq::empty())
        } else {
            fields.drop_last().push(fields.last().push(text.last()))
        }
    }
}

/// Whether a list of ranges marks the fields of the stretch of a text that begins at `from`
/// and ends before `end`.
pub open spec fn marks_fields(
    text: Seq<char>,
    from: int,
    end: int,
    separator: char,
    ranges: Seq<(usize, usize)>,
) -> bool {
    let fields = split_on(text.subrange(from, end), separator);
    &&& ranges.len() == fields.len()
    &&& forall|k: int|
        0 <= k < ranges.len() ==> {
            &&& from <= (#[trigger] ranges[k]).0 <= ranges[k].1 <= end
            &&& text.subrange(ranges[k].0 as int, ranges[k].1 as int) == fields[k]
        }
}

/// Part the stretch of a text that begins at `from` and ends before `end` into fields, and
/// return where each field begins and where it ends.
pub fn split_ranges(text: &Vec<char>, from: usize, end: usize, separator: char) -> (ranges: Vec<
    (usize, usize),
>)
    requires
        from <= end <= text@.len(),
    ensures
        marks_fields(text@, from as int, end as int, separator, ranges@),
        ranges@.len() >= 1,
{
    let mut ranges: Vec<(usize, usize)> = Vec::new();
    let mut start: usize = from;
    let mut at: usize = from;
    let ghost whole = text@;
    assert(whole.subrange(from as int, from as int) =~= Seq::<char>::empty());
    while at < end
        invariant
            from <= start <= at <= end <= whole.len(),
            whole == text@,
            ({
                let fields = split_on(whole.subrange(from as int, at as int), separator);
                &&& fields.len() == ranges@.len() + 1
                &&& fields.last() == whole.subrange(start as int, at as int)
                &&& forall|k: int|
                    0 <= k < ranges@.len() ==> {
                        &&& from <= (#[trigger] ranges@[k]).0 <= ranges@[k].1 <= at
                        &&& whole.subrange(ranges@[k].0 as int, ranges@[k].1 as int) == fields[k]
                    }
            }),
        decreases end - at,
    {
        let ghost upto = whole.subrange(from as int, at + 1);
        let ghost fields = split_on(whole.subrange(from as int, at as int), separator);
        proof {
            assert(upto.drop_last() =~= whole.subrange(from as int, at as int));
            assert(upto.last() == whole[at as int]);
        }
        if text[at] == separator {
            ranges.push((start, at));
            start = at + 1;
            proof {
                assert(whole.subrange(start as int, at + 1) =~= Seq::<char>::empty());
            }
        } else {
            proof {
                assert(whole.subrange(start as int, at + 1) =~= fields.last().push(
                    whole[at as int],
                ));
            }
        }
        at += 1;
    }
    ranges.push((start, end));
    ranges
}

/// The value of a decimal digit, if the character is one.
pub open spec fn digit_value(character: char) -> Option<int> {
    if character == '0' {
        Some(0)
    } else if character == '1' {
        Some(1)
    } else if character == '2' {
        Some(2)
    } else if character == '3' {
        Some(3)
    } else if character == '4' {
        Some(4)
    } else if character == '5' {
        Some(5)
    } else if character == '6' {
        Some(6)
    } else if character == '7' {
        Some(7)
    } else if character == '8' {
        Some(8)
    } else if character == '9' {
        Some(9)
    } else {
        None
    }
}

/// The number that a text of decimal digits stands for; none if the text is empty or holds
/// anything but digits.
pub open spec fn digits_value(text: Seq<char>) -> Option<int>
    decreases text.len(),
{
    if text.len() == 0 {
        None
    } else if digit_value(text.last()) is None {
        None
    } else if text.len() == 1 {
        digit_value(text.last())
    } else {
        match digits_value(text.drop_last()) {
            Some(value) => Some(10 * value + digit_value(text.last())->0),
            None => None,
        }
    }
}

/// The number that a text stands for: decimal digits, with a plus or minus sign before them
/// or with none; none if the text is anything else, or if the number does not fit.
pub open spec fn number_of(text: Seq<char>) -> Option<i64> {
    let signed = text.len() > 0 && (text[0] == '-' || text[0] == '+');
    let digits = if signed {
        text.drop_first()
    } else {
        text
    };
    match digits_value(digits) {
        Some(value) => {
            let number = if text[0] == '-' {
                -value
            } else {
                value
            };
            if i64::MIN <= number <= i64::MAX {
                Some(number as i64)
            } else {
                None
            }
        },
        None => None,
    }
}

/// The digits that a number is written in stand for the number.
pub proof fn digits_are_read_back(value: int)
    requires
        0 <= value,
    ensures
        digits_value(digits_text(value)) == Some(value),
        digits_text(value).len() >= 1,
        digit_value(digits_text(value)[0]) is Some,
    decreases value,
{
    if value >= 10 {
        digits_are_read_back(value / 10);
        let text = digits_text(value);
        assert(text.drop_last() =~= digits_text(value / 10));
        assert(text.last() == digit_char(value % 10));
        assert(text[0] == digits_text(value / 10)[0]);
    }
}

/// A number that was written as text is read back from it.
pub proof fn decimal_is_read_back(value: i64)
    ensures
        number_of(decimal_text(value as int)) == Some(value),
{
    let text = decimal_text(value as int);
    if value < 0 {
        digits_are_read_back(-(value as int));
        assert(text.drop_first() =~= digits_text(-(value as int)));
        assert(text[0] == '-');
    } else {
        digits_are_read_back(value as int);
    }
}

/// The value of a decimal digit, if the character is one.
fn digit_of(character: char) -> (digit: Option<u8>)
    ensures
        match digit {
            Some(value) => digit_value(character) == Some(value as int) && value < 10,
            None => digit_value(character) is None,
        },
{
    if character == '0' {
        Some(0)
    } else if character == '1' {
        Some(1)
    } else if character == '2' {
        Some(2)
    } else if character == '3' {
        Some(3)
    } else if character == '4' {
        Some(4)
    } else if character == '5' {
        Some(5)
    } else if character == '6' {
        Some(6)
    } else if character == '7' {
        Some(7)
    } else if character == '8' {
        Some(8)
    } else if character == '9' {
        Some(9)
    } else {
        None
    }
}

/// A text of digits that goes on from one that stands for a number stands for one at least
/// as great.
pub proof fn digits_value_grows(text: Seq<char>, shorter: int)
    requires
        1 <= shorter <= text.len(),
        digits_value(text) is Some,
    ensures
        digits_value(text.subrange(0, shorter)) is Some,
        0 <= digits_value(text.subrange(0, shorter))->0 <= digits_value(text)->0,
    decreases text.len() - shorter,
{
    if shorter == text.len() {
        assert(text.subrange(0, shorter) =~= text);
        digits_value_positive(text);
    } else {
        assert(text.drop_last().subrange(0, shorter) =~= text.subrange(0, shorter));
        digits_value_grows(text.drop_last(), shorter);
    }
}

/// A text of digits stands for a number that is not negative.
pub proof fn digits_value_positive(text: Seq<char>)
    requires
        digits_value(text) is Some,
    ensures
        digits_value(text)->0 >= 0,
    decreases text.len(),
{
    if text.len() > 1 {
        digits_value_positive(text.drop_last());
    }
}

/// Read the number that the stretch of a text from `from` to before `end` stands for.
pub fn parse_number(text: &Vec<char>, from: usize, end: usize) -> (number: Option<i64>)
    requires
        from <= end <= text@.len(),
    ensures
        number == number_of(text@.subrange(from as int, end as int)),
{
    let ghost whole = text@.subrange(from as int, end as int);
    if from == end {
        return None;
    }
    let negative: bool = text[from] == '-';
    let signed: bool = negative || text[from] == '+';
    let first: usize = if signed {
        from + 1
    } else {
        from
    };
    let ghost digits = text@.subrange(first as int, end as int);
    assert(whole[0] == text@[from as int]);
    assert(digits =~= if signed {
        whole.drop_first()
    } else {
        whole
    });
    if first == end {
        return None;
    }
    let mut value: i128 = 0;
    let mut at: usize = first;
    while at < end
        invariant
            first <= at <= end <= text@.len(),
            first < end,
            whole == text@.subrange(from as int, end as int),
            whole.len() > 0,
            signed == (whole[0] == '-' || whole[0] == '+'),
            negative == (whole[0] == '-'),
            digits == if signed {
                whole.drop_first()
            } else {
                whole
            },
            digits == text@.subrange(first as int, end as int),
            at > first ==> digits_value(digits.subrange(0, at - first)) == Some(value as int),
            at == first ==> value == 0,
            0 <= value <= 0x8000_0000_0000_0000,
        decreases end - at,
    {
        let ghost upto = digits.subrange(0, at + 1 - first);
        proof {
            assert(upto.drop_last() =~= digits.subrange(0, at - first));
            assert(upto.last() == text@[at as int]);
        }
        match digit_of(text[at]) {
            Some(digit) => {
                value = value * 10 + digit as i128;
                if value > 0x8000_0000_0000_0000 {
                    proof {
                        assert(digits_value(upto) == Some(value as int));
                        if digits_value(digits) is Some {
                            digits_value_grows(digits, at + 1 - first);
                        }
                    }
                    return None;
                }
            },
            None => {
                proof {
                    digits_has_prefix(digits, at + 1 - first);
                }
                return None;
            },
        }
        at += 1;
    }
    assert(digits.subrange(0, end - first) =~= digits);
    if negative {
        if value == 0x8000_0000_0000_0000 {
            Some(i64::MIN)
        } else {
            Some((-value) as i64)
        }
    } else if value > 0x7FFF_FFFF_FFFF_FFFF {
        None
    } else {
        Some(value as i64)
    }
}

/// A text stands for a number only if each of its beginnings does.
pub proof fn digits_has_prefix(text: Seq<char>, shorter: int)
    requires
        1 <= shorter <= text.len(),
        digits_value(text.subrange(0, shorter)) is None,
    ensures
        digits_value(text) is None,
    decreases text.len() - shorter,
{
    if shorter == text.len() {
        assert(text.subrange(0, shorter) =~= text);
    } else {
        assert(text.drop_last().subrange(0, shorter) =~= text.subrange(0, shorter));
        digits_has_prefix(text.drop_last(), shorter);
    }
}

} // verus!
