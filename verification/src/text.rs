//! Text as sequences of characters.

use vstd::prelude::*;

verus! {

/// `String::push` appends one character.
pub assume_specification[ String::push ](text: &mut String, character: char)
    ensures
        final(text)@ == old(text)@.push(character),
;

/// Whether two texts hold the same characters.
pub fn same(left: &str, right: &str) -> (answer: bool)
    ensures
        answer == (left@ == right@),
{
    left.to_owned() == right.to_owned()
}

/// Space, tab, line feed, form feed, and carriage return.
pub open spec fn ascii_space(character: char) -> bool {
    ||| character == ' '
    ||| character == '\t'
    ||| character == '\n'
    ||| character == '\u{c}'
    ||| character == '\r'
}

/// Whether a character is ASCII whitespace.
pub fn is_ascii_space(character: char) -> (answer: bool)
    ensures
        answer == ascii_space(character),
{
    character == ' ' || character == '\t' || character == '\n' || character == '\u{c}'
        || character == '\r'
}

/// `characters` without ASCII whitespace.
pub open spec fn without_spaces(characters: Seq<char>) -> Seq<char>
    decreases characters.len(),
{
    if characters.len() == 0 {
        Seq::empty()
    } else if ascii_space(characters.last()) {
        without_spaces(characters.drop_last())
    } else {
        without_spaces(characters.drop_last()).push(characters.last())
    }
}

/// The length of a character's UTF-8 encoding, in bytes.
pub fn utf8_length(character: char) -> (length: usize)
    ensures
        length == vstd::utf8::encode_scalar(character as u32).len(),
{
    let code: u32 = character as u32;
    if code < 0x80 {
        1
    } else if code < 0x800 {
        2
    } else if code < 0x1_0000 {
        3
    } else {
        4
    }
}

/// Reserves room for `additional` bytes with `String::try_reserve`. The text
/// never changes. The capacity that is reserved covers the text and what is added,
/// so their length is a number of bytes that can be counted; and where nothing is
/// added, the capacity suffices already. Whether memory is available is otherwise
/// up to the machine.
#[verifier::external_body]
pub(crate) fn reserve_text(text: &mut String, additional: usize) -> (reserved: bool)
    ensures
        final(text)@ == old(text)@,
        reserved ==> vstd::utf8::encode_utf8(old(text)@).len() + additional <= usize::MAX,
        additional == 0 ==> reserved,
{
    text.try_reserve(additional).is_ok()
}

/// Whether a character is a control code: one of U+0000 to U+001F or U+007F to
/// U+009F.
pub open spec fn control(character: char) -> bool {
    (character as u32) < 0x20 || 0x7f <= character as u32 <= 0x9f
}

/// Whether a character is a control code.
pub fn is_control(character: char) -> (answer: bool)
    ensures
        answer == control(character),
{
    let code: u32 = character as u32;
    code < 0x20 || (0x7f <= code && code <= 0x9f)
}

/// An ASCII letter in lower case; every other character as it is.
pub open spec fn lower(character: char) -> char {
    if 'A' <= character && character <= 'Z' {
        ((character as u32) + 32) as char
    } else {
        character
    }
}

/// Whether two texts differ in the case of ASCII letters only.
pub open spec fn same_letters(left: Seq<char>, right: Seq<char>) -> bool {
    &&& left.len() == right.len()
    &&& forall|index: int| 0 <= index < left.len() ==> lower(left[index]) == lower(right[index])
}

/// Whether two texts are equal, from `str::eq_ignore_ascii_case`: they differ in
/// the case of ASCII letters only.
#[verifier::external_body]
pub(crate) fn equal_letters(left: &str, right: &str) -> (answer: bool)
    ensures
        answer == same_letters(left@, right@),
{
    left.eq_ignore_ascii_case(right)
}

/// The first text, then the second.
pub fn joined(first: &str, second: &str) -> (text: String)
    ensures
        text@ == first@ + second@,
{
    let mut text = first.to_owned();
    text.append(second);
    text
}

/// Whether a character is white space in the sense of Unicode.
pub open spec fn white(character: char) -> bool {
    let code = character as u32;
    ||| 0x9 <= code <= 0xd
    ||| code == 0x20
    ||| code == 0x85
    ||| code == 0xa0
    ||| code == 0x1680
    ||| 0x2000 <= code <= 0x200a
    ||| code == 0x2028
    ||| code == 0x2029
    ||| code == 0x202f
    ||| code == 0x205f
    ||| code == 0x3000
}

/// Whether a character is white space in the sense of Unicode.
pub fn is_white(character: char) -> (answer: bool)
    ensures
        answer == white(character),
{
    let code: u32 = character as u32;
    (0x9 <= code && code <= 0xd) || code == 0x20 || code == 0x85 || code == 0xa0 || code == 0x1680
        || (0x2000 <= code && code <= 0x200a) || code == 0x2028 || code == 0x2029 || code == 0x202f
        || code == 0x205f || code == 0x3000
}

/// The words of a text: its longest runs without white space.
pub open spec fn words(text: Seq<char>) -> Seq<Seq<char>>
    decreases text.len(),
{
    if text.len() == 0 {
        Seq::empty()
    } else {
        let before = text.drop_last();
        let found = words(before);
        if white(text.last()) {
            found
        } else if before.len() == 0 || white(before.last()) {
            found.push(seq![text.last()])
        } else {
            found.update(found.len() - 1, found.last().push(text.last()))
        }
    }
}

/// What texts say.
pub open spec fn said(texts: Seq<String>) -> Seq<Seq<char>> {
    texts.map_values(|text: String| text@)
}

proof fn lemma_words(text: Seq<char>)
    ensures
        text.len() > 0 && !white(text.last()) ==> words(text).len() > 0,
        forall|index: int| 0 <= index < words(text).len() ==> (#[trigger] words(text)[index]).len() > 0,
    decreases text.len(),
{
    if text.len() > 0 {
        lemma_words(text.drop_last());
    }
}

/// The words of a text.
pub fn split_words(text: &str) -> (found: Vec<String>)
    ensures
        said(found@) == words(text@),
        forall|index: int| 0 <= index < found@.len() ==> (#[trigger] found@[index])@.len() > 0,
{
    let mut found: Vec<String> = Vec::new();
    let mut inside = false;
    assert(said(found@) =~= words(text@.take(0)));
    for character in iter: text.chars()
        invariant
            iter.seq() == text@,
            said(found@) == words(text@.take(iter.index() as int)),
            inside == (iter.index() > 0 && !white(text@[iter.index() - 1])),
    {
        let ghost prefix = text@.take(iter.index() + 1);
        assert(prefix.drop_last() =~= text@.take(iter.index() as int));
        proof {
            lemma_words(text@.take(iter.index() as int));
        }
        if is_white(character) {
            inside = false;
        } else if !inside {
            let mut word = String::new();
            word.push(character);
            let ghost before = found@;
            assert(word@ =~= seq![character]);
            found.push(word);
            assert(said(found@) =~= said(before).push(seq![character]));
            inside = true;
        } else {
            let ghost before = found@;
            assert(said(before).len() > 0);
            if let Some(mut word) = found.pop() {
                word.push(character);
                found.push(word);
            }
            assert(said(found@) =~= said(before).update(
                said(before).len() - 1,
                said(before).last().push(character),
            ));
        }
    }
    assert(text@.take(text@.len() as int) =~= text@);
    proof {
        lemma_words(text@);
        assert forall|index: int| 0 <= index < found@.len() implies (#[trigger] found@[index])@.len()
            > 0 by {
            assert(said(found@)[index] == found@[index]@);
        }
    }
    found
}

/// How a text is written in upper case.
pub uninterp spec fn uppercased(text: Seq<char>) -> Seq<char>;

/// A text in upper case, from `str::to_uppercase`. The result depends on the text
/// alone.
#[verifier::external_body]
pub(crate) fn to_upper(text: &str) -> (upper: String)
    ensures
        upper@ == uppercased(text@),
{
    text.to_uppercase()
}

/// The number that decimal digits stand for.
pub open spec fn digits_value(digits: Seq<char>) -> int
    decreases digits.len(),
{
    if digits.len() == 0 {
        0
    } else {
        10 * digits_value(digits.drop_last()) + (digits.last() as u32 - '0' as u32)
    }
}

/// Whether a character is a decimal digit.
pub open spec fn digit(character: char) -> bool {
    '0' <= character && character <= '9'
}

/// Whether a text holds digits only.
pub open spec fn all_digits(digits: Seq<char>) -> bool {
    forall|index: int| 0 <= index < digits.len() ==> digit(#[trigger] digits[index])
}

/// Whether a text starts with a sign. `signed` says whether a minus sign is one.
pub open spec fn has_sign(text: Seq<char>, signed: bool) -> bool {
    text.len() > 0 && (text[0] == '+' || (signed && text[0] == '-'))
}

/// A text without its sign.
pub open spec fn magnitude_of(text: Seq<char>, signed: bool) -> Seq<char> {
    if has_sign(text, signed) {
        text.skip(1)
    } else {
        text
    }
}

/// The number a text stands for: an optional sign, then at least one digit.
/// `signed` says whether a minus sign is allowed.
pub open spec fn number(text: Seq<char>, signed: bool) -> Option<int> {
    let digits = magnitude_of(text, signed);
    if digits.len() == 0 || !all_digits(digits) {
        None
    } else if has_sign(text, signed) && text[0] == '-' {
        Some(-digits_value(digits))
    } else {
        Some(digits_value(digits))
    }
}

proof fn lemma_digits_positive(digits: Seq<char>)
    requires
        all_digits(digits),
    ensures
        0 <= digits_value(digits),
    decreases digits.len(),
{
    if digits.len() > 0 {
        lemma_digits_positive(digits.drop_last());
    }
}

/// A number that may not have a minus sign is not negative.
pub proof fn lemma_unsigned_numbers(text: Seq<char>)
    ensures
        number(text, false) matches Some(value) ==> 0 <= value,
{
    let digits = magnitude_of(text, false);
    if all_digits(digits) {
        lemma_digits_positive(digits);
    }
}

/// The number a text stands for, if its magnitude does not exceed `largest`, as
/// whether it is negative and its magnitude.
pub fn parse_number(text: &str, signed: bool, largest: u64) -> (value: Option<(bool, u64)>)
    ensures
        match number(text@, signed) {
            Some(found) => if -largest <= found <= largest {
                value matches Some((negative, magnitude)) && found == (if negative {
                    -magnitude
                } else {
                    magnitude as int
                }) && (negative ==> signed)
            } else {
                value is None
            },
            None => value is None,
        },
{
    let mut negative = false;
    let mut skipped = false;
    let mut any = false;
    let mut valid = true;
    let mut fits = true;
    let mut magnitude: u64 = 0;
    let ghost sign = has_sign(text@, signed);
    let ghost digits = magnitude_of(text@, signed);
    let ghost mut seen: int = 0;
    assert(digits.take(0) =~= Seq::<char>::empty());
    for character in iter: text.chars()
        invariant
            iter.seq() == text@,
            sign == has_sign(text@, signed),
            digits == magnitude_of(text@, signed),
            skipped == (sign && iter.index() > 0),
            negative == (skipped && text@[0] == '-'),
            any == (seen > 0),
            seen == if skipped {
                iter.index() - 1
            } else {
                iter.index() as int
            },
            0 <= seen <= digits.len(),
            valid == all_digits(digits.take(seen)),
            valid && fits ==> magnitude == digits_value(digits.take(seen)) && magnitude <= largest,
            valid && !fits ==> digits_value(digits.take(seen)) > largest,
    {
        if !any && !skipped && (character == '+' || (signed && character == '-')) {
            skipped = true;
            negative = character == '-';
        } else {
            any = true;
            let ghost before = digits.take(seen);
            let ghost after = digits.take(seen + 1);
            proof {
                assert(digits[seen] == character);
                assert(after.drop_last() =~= before);
                assert(after.last() == character);
                if valid {
                    lemma_digits_positive(before);
                    assert forall|index: int| 0 <= index < after.len() && digit(character) implies digit(
                        #[trigger] after[index],
                    ) by {
                        if index < seen {
                            assert(digit(before[index]));
                        }
                    }
                } else if all_digits(after) {
                    assert forall|index: int| 0 <= index < before.len() implies digit(
                        #[trigger] before[index],
                    ) by {
                        assert(digit(after[index]));
                    }
                }
                seen = seen + 1;
            }
            if '0' <= character && character <= '9' {
                let value: u64 = (character as u32 - '0' as u32) as u64;
                if fits {
                    match magnitude.checked_mul(10) {
                        Some(scaled) => match scaled.checked_add(value) {
                            Some(sum) => {
                                if sum <= largest {
                                    magnitude = sum;
                                } else {
                                    fits = false;
                                }
                            },
                            None => {
                                fits = false;
                            },
                        },
                        None => {
                            fits = false;
                        },
                    }
                }
            } else {
                assert(!digit(after[seen - 1]));
                valid = false;
            }
        }
    }
    assert(digits.take(digits.len() as int) =~= digits);
    proof {
        if valid {
            lemma_digits_positive(digits);
        }
    }
    if !any || !valid || !fits {
        return None;
    }
    Some((negative, magnitude))
}

/// The unsigned number a text stands for.
pub fn parse_u64(text: &str) -> (value: Option<u64>)
    ensures
        (match value {
            Some(value) => Some(value as int),
            None => None,
        }) == match number(text@, false) {
            Some(found) => if 0 <= found <= u64::MAX {
                Some(found)
            } else {
                None
            },
            None => None,
        },
{
    match parse_number(text, false, u64::MAX) {
        Some((_, magnitude)) => Some(magnitude),
        None => None,
    }
}

/// A digit of a number to a base of at most sixteen.
pub open spec fn digit_of(value: int) -> char {
    if value < 10 {
        (('0' as u32) + value) as char
    } else {
        (('a' as u32) + value - 10) as char
    }
}

/// A number written to a base, without leading zeros.
pub open spec fn written(value: nat, base: nat) -> Seq<char>
    decreases value,
{
    if base < 2 || value < base {
        seq![digit_of(value as int)]
    } else {
        proof {
            assert(value / base < value) by (nonlinear_arith)
                requires
                    base >= 2,
                    value >= base,
            ;
        }
        written(value / base, base).push(digit_of((value % base) as int))
    }
}

fn digit_character(value: u64) -> (character: char)
    requires
        value < 16,
    ensures
        character == digit_of(value as int),
{
    let digits = [
        '0',
        '1',
        '2',
        '3',
        '4',
        '5',
        '6',
        '7',
        '8',
        '9',
        'a',
        'b',
        'c',
        'd',
        'e',
        'f',
    ];
    digits[value as usize]
}

/// A number written to a base.
pub fn write_number(value: u64, base: u64) -> (text: String)
    requires
        2 <= base <= 16,
    ensures
        text@ == written(value as nat, base as nat),
    decreases value,
{
    if value < base {
        let mut text = String::new();
        text.push(digit_character(value));
        assert(text@ =~= written(value as nat, base as nat));
        return text;
    }
    assert(value / base < value) by (nonlinear_arith)
        requires
            base >= 2,
            value >= base,
    ;
    let mut text = write_number(value / base, base);
    text.push(digit_character(value % base));
    text
}

proof fn lemma_written_digits(value: nat, base: nat)
    requires
        2 <= base <= 16,
    ensures
        written(value, base).len() > 0,
        forall|index: int|
            0 <= index < written(value, base).len() ==> exists|digit: int|
                0 <= digit < 16 && #[trigger] written(value, base)[index] == #[trigger] digit_of(
                    digit,
                ),
    decreases value,
{
    if value < base {
        assert(written(value, base)[0] == digit_of(value as int));
    } else {
        assert(value / base < value) by (nonlinear_arith)
            requires
                base >= 2,
                value >= base,
        ;
        lemma_written_digits(value / base, base);
        let before = written(value / base, base);
        assert forall|index: int| 0 <= index < written(value, base).len() implies exists|
            digit: int,
        |
            0 <= digit < 16 && #[trigger] written(value, base)[index] == #[trigger] digit_of(
                digit,
            ) by {
            if index < before.len() {
                assert(written(value, base)[index] == before[index]);
            } else {
                assert(written(value, base)[index] == digit_of((value % base) as int));
            }
        }
    }
}

/// A written number holds digits only.
pub proof fn lemma_written_has_no_dash(value: nat, base: nat)
    requires
        2 <= base <= 16,
    ensures
        written(value, base).len() > 0,
        !written(value, base).contains('-'),
{
    lemma_written_digits(value, base);
    if written(value, base).contains('-') {
        let index = choose|index: int|
            0 <= index < written(value, base).len() && written(value, base)[index] == '-';
        assert(written(value, base)[index] == '-');
    }
}

/// Different numbers are written differently.
pub proof fn lemma_written_is_injective(left: nat, right: nat, base: nat)
    requires
        2 <= base <= 16,
        written(left, base) == written(right, base),
    ensures
        left == right,
    decreases left,
{
    lemma_written_digits(left, base);
    lemma_written_digits(right, base);
    let ours = written(left, base);
    let theirs = written(right, base);
    assert(ours.last() == theirs.last());
    assert(left >= base ==> left / base < left) by (nonlinear_arith)
        requires
            base >= 2,
    ;
    assert(right >= base ==> right / base < right) by (nonlinear_arith)
        requires
            base >= 2,
    ;
    assert(0 <= left % base < base && 0 <= right % base < base) by (nonlinear_arith)
        requires
            base >= 2,
    ;
    if left < base {
        if right >= base {
            lemma_written_digits(right / base, base);
            assert(theirs.len() > 1);
        } else {
            assert(digit_of(left as int) == digit_of(right as int));
        }
    } else if right < base {
        lemma_written_digits(left / base, base);
        assert(ours.len() > 1);
    } else {
        assert(ours.drop_last() =~= written(left / base, base));
        assert(theirs.drop_last() =~= written(right / base, base));
        lemma_written_is_injective(left / base, right / base, base);
        assert(digit_of((left % base) as int) == digit_of((right % base) as int));
        vstd::arithmetic::div_mod::lemma_fundamental_div_mod(left as int, base as int);
        vstd::arithmetic::div_mod::lemma_fundamental_div_mod(right as int, base as int);
    }
}

/// The parts of a text between the places where a character stands.
pub open spec fn parts(text: Seq<char>, separator: char) -> Seq<Seq<char>>
    decreases text.len(),
{
    if text.len() == 0 {
        seq![Seq::empty()]
    } else {
        let before = parts(text.drop_last(), separator);
        if text.last() == separator {
            before.push(Seq::empty())
        } else {
            before.update(before.len() - 1, before.last().push(text.last()))
        }
    }
}

/// The parts of a text between the places where a character stands.
pub fn split_on(text: &str, separator: char) -> (found: Vec<String>)
    ensures
        said(found@) == parts(text@, separator),
{
    let mut found: Vec<String> = Vec::new();
    let mut part = String::new();
    assert(part@ =~= Seq::<char>::empty());
    assert(text@.take(0) =~= Seq::<char>::empty());
    assert(said(found@).push(part@) =~= parts(text@.take(0), separator));
    for character in iter: text.chars()
        invariant
            iter.seq() == text@,
            said(found@).push(part@) == parts(text@.take(iter.index() as int), separator),
    {
        let ghost prefix = text@.take(iter.index() + 1);
        assert(prefix.drop_last() =~= text@.take(iter.index() as int));
        let ghost before = said(found@).push(part@);
        if character == separator {
            found.push(part);
            assert(said(found@) =~= before);
            part = String::new();
            assert(part@ =~= Seq::<char>::empty());
        } else {
            part.push(character);
            assert(said(found@).push(part@) =~= before.update(
                before.len() - 1,
                before.last().push(character),
            ));
        }
    }
    assert(text@.take(text@.len() as int) =~= text@);
    let ghost before = said(found@).push(part@);
    found.push(part);
    assert(said(found@) =~= before);
    found
}

/// What comes before and after the first place where a character stands.
pub open spec fn cut(text: Seq<char>, separator: char) -> Option<(Seq<char>, Seq<char>)>
    decreases text.len(),
{
    if text.len() == 0 {
        None
    } else if text[0] == separator {
        Some((Seq::empty(), text.skip(1)))
    } else {
        match cut(text.skip(1), separator) {
            Some((head, tail)) => Some((seq![text[0]] + head, tail)),
            None => None,
        }
    }
}

/// What comes before and after the first place where a character stands.
pub fn split_once(text: &str, separator: char) -> (found: Option<(String, String)>)
    ensures
        (match found {
            Some((head, tail)) => Some((head@, tail@)),
            None => None,
        }) == cut(text@, separator),
{
    let mut head = String::new();
    let mut tail = String::new();
    let mut passed = false;
    assert(text@.skip(0) =~= text@);
    proof {
        if let Some((first, second)) = cut(text@, separator) {
            assert(head@ + first =~= first);
        }
    }
    for character in iter: text.chars()
        invariant
            iter.seq() == text@,
            !passed ==> tail@.len() == 0 && cut(text@, separator) == match cut(
                text@.skip(iter.index() as int),
                separator,
            ) {
                Some((first, second)) => Some((head@ + first, second)),
                None => None,
            },
            passed ==> cut(text@, separator) == Some(
                (head@, tail@ + text@.skip(iter.index() as int)),
            ),
    {
        let ghost rest = text@.skip(iter.index() as int);
        assert(rest[0] == character);
        assert(rest.skip(1) =~= text@.skip(iter.index() + 1));
        if passed {
            let ghost before = tail@;
            tail.push(character);
            assert(before + rest =~= tail@ + rest.skip(1));
        } else if character == separator {
            passed = true;
            assert(head@ + Seq::<char>::empty() =~= head@);
            assert(tail@ + rest.skip(1) =~= rest.skip(1));
        } else {
            let ghost before = head@;
            head.push(character);
            proof {
                if let Some((first, second)) = cut(rest.skip(1), separator) {
                    assert(before + (seq![character] + first) =~= head@ + first);
                }
            }
        }
    }
    assert(text@.skip(text@.len() as int) =~= Seq::<char>::empty());
    assert(tail@ + Seq::<char>::empty() =~= tail@);
    if passed {
        Some((head, tail))
    } else {
        None
    }
}

/// A text without the white space in front of it.
pub open spec fn without_front(text: Seq<char>) -> Seq<char>
    decreases text.len(),
{
    if text.len() > 0 && white(text[0]) {
        without_front(text.skip(1))
    } else {
        text
    }
}

/// A text without the white space behind it.
pub open spec fn without_back(text: Seq<char>) -> Seq<char>
    decreases text.len(),
{
    if text.len() > 0 && white(text.last()) {
        without_back(text.drop_last())
    } else {
        text
    }
}

/// A text without the white space around it.
pub open spec fn trimmed(text: Seq<char>) -> Seq<char> {
    without_back(without_front(text))
}

proof fn lemma_front_grows(text: Seq<char>, character: char)
    ensures
        without_front(text.push(character)) == if without_front(text).len() > 0 {
            without_front(text).push(character)
        } else if white(character) {
            Seq::empty()
        } else {
            seq![character]
        },
    decreases text.len(),
{
    reveal_with_fuel(without_front, 2);
    let longer = text.push(character);
    if text.len() == 0 {
        assert(longer.skip(1) =~= Seq::<char>::empty());
        assert(longer =~= seq![character]);
    } else if white(text[0]) {
        assert(longer.skip(1) =~= text.skip(1).push(character));
        lemma_front_grows(text.skip(1), character);
    }
}

/// A text without the white space around it.
pub fn trim(text: &str) -> (result: String)
    ensures
        result@ == trimmed(text@),
{
    let mut result = String::new();
    let mut pending = String::new();
    let mut started = false;
    assert(text@.take(0) =~= Seq::<char>::empty());
    assert(result@ + pending@ =~= Seq::<char>::empty());
    for character in iter: text.chars()
        invariant
            iter.seq() == text@,
            without_front(text@.take(iter.index() as int)) == result@ + pending@,
            without_back(result@ + pending@) == result@,
            started == (result@.len() > 0),
            !started ==> pending@.len() == 0,
    {
        let ghost prefix = text@.take(iter.index() as int);
        let ghost before = result@ + pending@;
        assert(text@.take(iter.index() + 1) =~= prefix.push(character));
        proof {
            lemma_front_grows(prefix, character);
        }
        if is_white(character) {
            if started {
                pending.push(character);
                assert(result@ + pending@ =~= before.push(character));
                assert(before.push(character).drop_last() =~= before);
            } else {
                assert(result@ + pending@ =~= Seq::<char>::empty());
            }
        } else {
            result.append(pending.as_str());
            pending = String::new();
            result.push(character);
            assert(result@ + pending@ =~= before.push(character));
            assert(result@ =~= before.push(character));
            if !started {
                assert(before =~= Seq::<char>::empty());
                assert(result@ =~= seq![character]);
            }
            started = true;
        }
    }
    assert(text@.take(text@.len() as int) =~= text@);
    result
}

/// Whether a text starts with a character.
pub open spec fn starts(text: Seq<char>, character: char) -> bool {
    text.len() > 0 && text[0] == character
}

/// Whether a text starts with a character.
pub fn starts_with(text: &str, character: char) -> (answer: bool)
    ensures
        answer == starts(text@, character),
{
    text.unicode_len() > 0 && text.get_char(0) == character
}

/// Whether a text starts with another.
pub fn begins_with(text: &str, start: &str) -> (answer: bool)
    ensures
        answer == start@.is_prefix_of(text@),
{
    let length: usize = start.unicode_len();
    if length > text.unicode_len() {
        return false;
    }
    let mut index: usize = 0;
    while index < length
        invariant
            index <= length,
            length == start@.len(),
            length <= text@.len(),
            forall|seen: int| 0 <= seen < index ==> start@[seen] == text@[seen],
        decreases length - index,
    {
        if start.get_char(index) != text.get_char(index) {
            assert(start@[index as int] != text@.subrange(0, length as int)[index as int]);
            return false;
        }
        index += 1;
    }
    assert(start@ =~= text@.subrange(0, length as int));
    true
}

/// Whether a text holds a character.
pub fn holds(text: &str, character: char) -> (answer: bool)
    ensures
        answer == text@.contains(character),
{
    let mut found = false;
    for next in iter: text.chars()
        invariant
            iter.seq() == text@,
            found == (exists|index: int|
                0 <= index < iter.index() && #[trigger] text@[index] == character),
    {
        if next == character {
            assert(text@[iter.index() as int] == character);
            found = true;
        }
    }
    found
}

/// The characters of a text.
pub fn characters(text: &str) -> (list: Vec<char>)
    ensures
        list@ == text@,
{
    let mut list: Vec<char> = Vec::new();
    for character in iter: text.chars()
        invariant
            iter.seq() == text@,
            list@ == text@.take(iter.index() as int),
    {
        list.push(character);
        assert(list@ =~= text@.take(iter.index() + 1));
    }
    assert(text@.take(text@.len() as int) =~= text@);
    list
}

/// Whether a text comes before another one, by their characters.
pub open spec fn precedes(left: Seq<char>, right: Seq<char>) -> bool
    decreases left.len(),
{
    if right.len() == 0 {
        false
    } else if left.len() == 0 {
        true
    } else if left[0] != right[0] {
        left[0] < right[0]
    } else {
        precedes(left.skip(1), right.skip(1))
    }
}

/// Whether a text comes before another one, by their characters.
pub fn comes_before(left: &str, right: &str) -> (answer: bool)
    ensures
        answer == precedes(left@, right@),
{
    let first: Vec<char> = characters(left);
    let second: Vec<char> = characters(right);
    let mut index: usize = 0;
    assert(first@.skip(0) =~= first@);
    assert(second@.skip(0) =~= second@);
    while index < first.len() && index < second.len()
        invariant
            index <= first@.len(),
            index <= second@.len(),
            first@ == left@,
            second@ == right@,
            precedes(left@, right@) == precedes(
                first@.skip(index as int),
                second@.skip(index as int),
            ),
        decreases first@.len() - index,
    {
        assert(first@.skip(index as int).skip(1) =~= first@.skip(index + 1));
        assert(second@.skip(index as int).skip(1) =~= second@.skip(index + 1));
        if first[index] != second[index] {
            return first[index] < second[index];
        }
        index += 1;
    }
    index < second.len()
}

/// Of two texts that each do not come before the next, the outer ones are in order
/// too; and no two texts come before each other.
pub proof fn lemma_order_of_texts(first: Seq<char>, second: Seq<char>, third: Seq<char>)
    ensures
        !precedes(second, first) && !precedes(third, second) ==> !precedes(third, first),
        precedes(first, second) ==> !precedes(second, first),
    decreases first.len() + second.len() + third.len(),
{
    if first.len() > 0 && second.len() > 0 {
        if third.len() > 0 {
            lemma_order_of_texts(first.skip(1), second.skip(1), third.skip(1));
        } else {
            lemma_order_of_texts(first.skip(1), second.skip(1), third);
        }
    }
}

// ---------------------------------------------------------------------------
// Laws
// ---------------------------------------------------------------------------

/// Texts one after the other, with a character between each two.
pub open spec fn strung(texts: Seq<Seq<char>>, separator: char) -> Seq<char>
    decreases texts.len(),
{
    if texts.len() == 0 {
        Seq::empty()
    } else if texts.len() == 1 {
        texts[0]
    } else {
        strung(texts.drop_last(), separator).push(separator) + texts.last()
    }
}

/// The parts of a text, strung together again, give the text back, and none of them
/// holds the character that parts them. There is always one.
pub proof fn law_parts_make_up_the_text(text: Seq<char>, separator: char)
    ensures
        strung(parts(text, separator), separator) == text,
        parts(text, separator).len() > 0,
        forall|index: int|
            0 <= index < parts(text, separator).len() ==> !(#[trigger] parts(
                text,
                separator,
            )[index]).contains(separator),
    decreases text.len(),
{
    let found = parts(text, separator);
    if text.len() == 0 {
        assert(strung(found, separator) =~= text);
    } else {
        let shorter = text.drop_last();
        law_parts_make_up_the_text(shorter, separator);
        let before = parts(shorter, separator);
        if text.last() == separator {
            assert(found.drop_last() =~= before);
            assert(strung(found, separator) =~= text);
        } else {
            let longer = before.last().push(text.last());
            assert(found.drop_last() =~= before.drop_last());
            assert(found.last() == longer);
            assert(strung(found, separator) =~= strung(before, separator).push(text.last()));
            assert(strung(found, separator) =~= text);
            assert forall|index: int| 0 <= index < found.len() implies !(
            #[trigger] found[index]).contains(separator) by {
                if index < before.len() - 1 {
                    assert(found[index] == before[index]);
                } else {
                    assert(!before[index].contains(separator));
                    assert(found[index] == longer);
                    if longer.contains(separator) {
                        let at = choose|at: int| 0 <= at < longer.len() && longer[at] == separator;
                        assert(before[index][at] == separator);
                    }
                }
            }
        }
    }
}

/// A text is cut at the first place where the character stands, and nowhere where it
/// stands nowhere.
pub proof fn law_texts_are_cut_at_the_first_place(text: Seq<char>, separator: char)
    ensures
        cut(text, separator) is Some <==> text.contains(separator),
        cut(text, separator) matches Some((head, tail)) ==> text == head.push(separator) + tail
            && !head.contains(separator),
    decreases text.len(),
{
    if text.len() > 0 && text[0] != separator {
        law_texts_are_cut_at_the_first_place(text.skip(1), separator);
        if text.contains(separator) {
            let at = choose|at: int| 0 <= at < text.len() && text[at] == separator;
            assert(text.skip(1)[at - 1] == separator);
        }
        if let Some((head, tail)) = cut(text.skip(1), separator) {
            let whole = seq![text[0]] + head;
            assert(text.skip(1)[head.len() as int] == separator) by {
                assert((head.push(separator) + tail)[head.len() as int] == separator);
            }
            assert(text[head.len() as int + 1] == separator);
            assert(whole.push(separator) + tail =~= seq![text[0]] + (head.push(separator) + tail));
            assert(seq![text[0]] + text.skip(1) =~= text);
            if whole.contains(separator) {
                let at = choose|at: int| 0 <= at < whole.len() && whole[at] == separator;
                assert(head[at - 1] == separator);
            }
        }
    } else if text.len() > 0 {
        let (head, tail) = cut(text, separator)->Some_0;
        assert(text[0] == separator);
        assert(head.push(separator) + tail =~= text);
    }
}

/// Whether a text is white space all through.
pub open spec fn blank(text: Seq<char>) -> bool {
    forall|index: int| 0 <= index < text.len() ==> white(#[trigger] text[index])
}

/// Trimming takes white space away from both ends and nothing else, and leaves none
/// there.
pub proof fn law_trimming_takes_white_space_from_the_ends(text: Seq<char>) -> (ends: (
    Seq<char>,
    Seq<char>,
))
    ensures
        text == ends.0 + trimmed(text) + ends.1,
        blank(ends.0),
        blank(ends.1),
        trimmed(text).len() > 0 ==> !white(trimmed(text)[0]) && !white(trimmed(text).last()),
{
    let front = lemma_front(text);
    let middle = without_front(text);
    let back = lemma_back(middle);
    assert(text =~= front + (without_back(middle) + back));
    assert(text =~= front + trimmed(text) + back);
    if trimmed(text).len() > 0 {
        assert(trimmed(text)[0] == middle[0]);
    }
    (front, back)
}

proof fn lemma_front(text: Seq<char>) -> (front: Seq<char>)
    ensures
        text == front + without_front(text),
        blank(front),
        without_front(text).len() > 0 ==> !white(without_front(text)[0]),
    decreases text.len(),
{
    if text.len() > 0 && white(text[0]) {
        let rest = lemma_front(text.skip(1));
        let front = seq![text[0]] + rest;
        assert(text =~= seq![text[0]] + text.skip(1));
        assert(text =~= front + without_front(text));
        front
    } else {
        assert(text =~= Seq::<char>::empty() + text);
        Seq::empty()
    }
}

proof fn lemma_back(text: Seq<char>) -> (back: Seq<char>)
    ensures
        text == without_back(text) + back,
        blank(back),
        without_back(text).len() > 0 ==> !white(without_back(text).last()),
    decreases text.len(),
{
    if text.len() > 0 && white(text.last()) {
        let rest = lemma_back(text.drop_last());
        let back = rest.push(text.last());
        assert(text =~= text.drop_last().push(text.last()));
        assert(text =~= without_back(text) + back);
        back
    } else {
        assert(text =~= text + Seq::<char>::empty());
        Seq::empty()
    }
}

/// A run without white space is one word, and white space parts words: the words of two
/// texts with white space between them are those of the first and then those of the
/// second.
pub proof fn law_white_space_parts_words(first: Seq<char>, space: char, second: Seq<char>)
    requires
        white(space),
    ensures
        words(first.push(space) + second) == words(first) + words(second),
        first.len() > 0 && (forall|index: int|
            0 <= index < first.len() ==> !white(#[trigger] first[index])) ==> words(first)
            == seq![first],
    decreases second.len(),
{
    let head = first.push(space);
    if second.len() == 0 {
        assert(head + second =~= head);
        assert(head.drop_last() =~= first);
        assert(words(first) + words(second) =~= words(first));
    } else {
        let shorter = second.drop_last();
        let last = second.last();
        law_white_space_parts_words(first, space, shorter);
        assert((head + second).drop_last() =~= head + shorter);
        let found = words(head + shorter);
        let whole = words(head + second);
        assert(whole =~= words(first) + words(second)) by {
            if white(last) {
            } else if shorter.len() == 0 {
                assert((head + shorter).last() == space);
                assert(whole == found.push(seq![last]));
                assert(words(second) == words(shorter).push(seq![last]));
            } else {
                assert((head + shorter).last() == shorter.last());
                if white(shorter.last()) {
                    assert(whole == found.push(seq![last]));
                } else {
                    lemma_words(shorter);
                    assert(found.last() == words(shorter).last());
                    assert(whole == found.update(found.len() - 1, found.last().push(last)));
                    assert(words(second) == words(shorter).update(
                        words(shorter).len() - 1,
                        words(shorter).last().push(last),
                    ));
                }
            }
        }
    }
    if first.len() > 0 && (forall|index: int|
        0 <= index < first.len() ==> !white(#[trigger] first[index])) {
        lemma_one_word(first);
    }
}

proof fn lemma_one_word(text: Seq<char>)
    requires
        text.len() > 0,
        forall|index: int| 0 <= index < text.len() ==> !white(#[trigger] text[index]),
    ensures
        words(text) == seq![text],
    decreases text.len(),
{
    reveal_with_fuel(words, 2);
    let before = text.drop_last();
    assert(!white(text.last()));
    if before.len() == 0 {
        assert(text =~= seq![text.last()]);
        assert(words(text) =~= seq![text]);
    } else {
        assert forall|index: int| 0 <= index < before.len() implies !white(
            #[trigger] before[index],
        ) by {
            assert(before[index] == text[index]);
        }
        lemma_one_word(before);
        assert(before.push(text.last()) =~= text);
        assert(words(text) =~= seq![text]);
    }
}

/// A number that is written in decimal is read back.
pub proof fn law_written_numbers_are_read_back(value: nat)
    ensures
        number(written(value, 10), false) == Some(value as int),
        number(written(value, 10), true) == Some(value as int),
        number(seq!['-'] + written(value, 10), true) == Some(-(value as int)),
        number(seq!['+'] + written(value, 10), false) == Some(value as int),
        number(seq!['-'] + written(value, 10), false) is None,
{
    lemma_decimal(value);
    let digits = written(value, 10);
    assert(digit(digits[0]));
    let minus = seq!['-'] + digits;
    let plus = seq!['+'] + digits;
    assert(minus.skip(1) =~= digits);
    assert(plus.skip(1) =~= digits);
    assert(minus[0] == '-' && plus[0] == '+');
    assert(!digit(minus[0]));
}

proof fn lemma_decimal(value: nat)
    ensures
        written(value, 10).len() > 0,
        all_digits(written(value, 10)),
        digits_value(written(value, 10)) == value,
    decreases value,
{
    let text = written(value, 10);
    reveal_with_fuel(digits_value, 2);
    if value < 10 {
        assert(text.drop_last() =~= Seq::<char>::empty());
    } else {
        lemma_decimal(value / 10);
        assert(text.drop_last() =~= written(value / 10, 10));
    }
}

/// A text without digits all through, but for a sign in front, is no number.
pub proof fn law_only_digits_make_a_number(text: Seq<char>, signed: bool, at: int)
    requires
        0 <= at < text.len(),
        !('0' <= text[at] <= '9'),
        at > 0 || text[0] != '+' && text[0] != '-' || text.len() == 1 || text[0] == '-' && !signed,
    ensures
        number(text, signed) is None,
        number(Seq::empty(), signed) is None,
{
    let digits = magnitude_of(text, signed);
    if has_sign(text, signed) {
        if at > 0 {
            assert(digits[at - 1] == text[at]);
            assert(!digit(digits[at - 1]));
        }
    } else {
        assert(!digit(digits[at]));
    }
}

/// One text comes before another where it is the beginning of it, or where it has the
/// smaller character at the first place at which they differ.
pub proof fn law_texts_are_in_dictionary_order(
    common: Seq<char>,
    left: Seq<char>,
    right: Seq<char>,
)
    ensures
        precedes(common + left, common + right) == precedes(left, right),
        left.len() == 0 ==> precedes(left, right) == (right.len() > 0),
        right.len() == 0 ==> !precedes(left, right),
        left.len() > 0 && right.len() > 0 && left[0] != right[0] ==> precedes(left, right) == (
        left[0] < right[0]),
    decreases common.len(),
{
    if common.len() > 0 {
        law_texts_are_in_dictionary_order(common.skip(1), left, right);
        assert((common + left).skip(1) =~= common.skip(1) + left);
        assert((common + right).skip(1) =~= common.skip(1) + right);
    } else {
        assert(common + left =~= left);
        assert(common + right =~= right);
    }
}

/// Taking the spaces out of a text leaves its other characters in their order: a
/// character that is no space stays, and two texts can be cleared one by one.
pub proof fn law_spaces_are_taken_out(first: Seq<char>, second: Seq<char>)
    ensures
        without_spaces(first + second) == without_spaces(first) + without_spaces(second),
        first.len() == 1 ==> without_spaces(first) == if first[0] == ' ' || first[0] == '\t'
            || first[0] == '\n' || first[0] == '\u{c}' || first[0] == '\r' {
            Seq::empty()
        } else {
            first
        },
    decreases second.len(),
{
    if second.len() == 0 {
        assert(first + second =~= first);
        assert(without_spaces(first) + without_spaces(second) =~= without_spaces(first));
    } else {
        law_spaces_are_taken_out(first, second.drop_last());
        assert((first + second).drop_last() =~= first + second.drop_last());
        assert(without_spaces(first + second) =~= without_spaces(first) + without_spaces(second));
    }
    reveal_with_fuel(without_spaces, 2);
    if first.len() == 1 {
        assert(first.drop_last() =~= Seq::<char>::empty());
        assert(without_spaces(first) =~= if ascii_space(first[0]) {
            Seq::empty()
        } else {
            first
        });
    }
}

/// Control codes are all characters but those from the space to the tilde and those
/// from U+00A0 on.
pub proof fn law_control_codes_fill_two_blocks(character: char)
    ensures
        control(character) <==> !(' ' <= character && character <= '~') && character < '\u{a0}',
{
}

/// Two texts say the same, case aside, where each character is the other one or the
/// other one's letter: a Latin letter and the one thirty-two places on.
pub proof fn law_case_does_not_count(left: Seq<char>, right: Seq<char>)
    ensures
        same_letters(left, right) <==> {
            &&& left.len() == right.len()
            &&& forall|index: int|
                0 <= index < left.len() ==> {
                    let a = #[trigger] left[index];
                    let b = right[index];
                    ||| a == b
                    ||| 'A' <= a && a <= 'Z' && b as int == a as int + 32
                    ||| 'A' <= b && b <= 'Z' && a as int == b as int + 32
                }
        },
{
    if left.len() == right.len() {
        if same_letters(left, right) {
            assert forall|index: int| 0 <= index < left.len() implies {
                let a = #[trigger] left[index];
                let b = right[index];
                ||| a == b
                ||| 'A' <= a && a <= 'Z' && b as int == a as int + 32
                ||| 'A' <= b && b <= 'Z' && a as int == b as int + 32
            } by {
                assert(lower(left[index]) == lower(right[index]));
            }
        }
    }
}

/// A written number has the digits of its value, the last one the ones, up to nine and
/// then from the letter a on; it has as many as it needs and no more.
pub proof fn law_numbers_are_written_digit_by_digit(value: nat, base: nat, place: nat)
    requires
        2 <= base <= 16,
        place < written(value, base).len(),
    ensures
        ({
            let text = written(value, base);
            let digit = value as int / vstd::arithmetic::power::pow(base as int, place)
                % base as int;
            let character = text[text.len() - 1 - place];
            &&& digit < 10 ==> character as int == 48 + digit
            &&& digit >= 10 ==> character as int == 97 + digit - 10
            &&& text.len() > 1 ==> text[0] != '0'
            &&& text.len() == 1 <==> value < base
        }),
    decreases value,
{
    reveal(vstd::arithmetic::power::pow);
    let text = written(value, base);
    if value < base {
        assert(place == 0);
        vstd::arithmetic::div_mod::lemma_small_mod(value, base);
        assert(value as int / 1 == value);
    } else {
        assert(value / base < value && value / base >= 1) by (nonlinear_arith)
            requires
                base >= 2,
                value >= base,
        ;
        let rest = written(value / base, base);
        assert(text == rest.push(digit_of((value % base) as int)));
        lemma_written_is_some(value / base, base);
        if place == 0 {
            law_numbers_are_written_digit_by_digit(value / base, base, 0);
            assert(value as int / 1 == value);
            assert(0 <= value % base < base) by (nonlinear_arith)
                requires
                    base >= 2,
            ;
            lemma_first_digit(value / base, base);
        } else {
            let before = (place - 1) as nat;
            law_numbers_are_written_digit_by_digit(value / base, base, before);
            vstd::arithmetic::power::lemma_pow_positive(base as int, before);
            vstd::arithmetic::div_mod::lemma_div_denominator(
                value as int,
                base as int,
                vstd::arithmetic::power::pow(base as int, before),
            );
            assert(text[text.len() - 1 - place] == rest[rest.len() - 1 - before]);
            lemma_first_digit(value / base, base);
        }
    }
}

proof fn lemma_written_is_some(value: nat, base: nat)
    ensures
        written(value, base).len() > 0,
{
}

proof fn lemma_first_digit(value: nat, base: nat)
    requires
        2 <= base <= 16,
        value > 0,
    ensures
        written(value, base)[0] != '0',
    decreases value,
{
    if value >= base {
        assert(value / base < value && value / base >= 1) by (nonlinear_arith)
            requires
                base >= 2,
                value >= base,
        ;
        lemma_first_digit(value / base, base);
        lemma_written_is_some(value / base, base);
    }
}

} // verus!
