//! Text: UTF-8, ASCII case, prefixes, trimming and decimal numbers, character by character.

use vstd::prelude::*;
use vstd::string::*;

verus! {

broadcast use vstd::string::group_string_axioms;

/// `core::str::from_utf8`: bytes as text, if and only if they are valid UTF-8; the text's own
/// UTF-8 bytes are the bytes given.
#[verifier::external_body]
pub(crate) fn text_of_utf8(bytes: &[u8]) -> (r: Option<&str>)
    ensures
        r is Some <==> vstd::utf8::valid_utf8(bytes@),
        r matches Some(text) ==> vstd::utf8::encode_utf8(text@) == bytes@,
{
    core::str::from_utf8(bytes).ok()
}

/// A character with an ASCII capital replaced by its small letter.
pub open spec fn lower_char(c: char) -> char {
    if 'A' <= c <= 'Z' {
        (c as u32 + 32) as char
    } else {
        c
    }
}

/// Text with ASCII capitals replaced by small letters.
pub open spec fn lower(text: Seq<char>) -> Seq<char> {
    text.map_values(|c: char| lower_char(c))
}

/// `str::to_ascii_lowercase`: ASCII capitals become small letters, all else is kept.
pub assume_specification[ str::to_ascii_lowercase ](s: &str) -> (r: String)
    ensures
        r@ == lower(s@),
;

/// Lowering lowered text changes nothing.
pub proof fn lowering_twice_is_lowering_once(text: Seq<char>)
    ensures
        lower(lower(text)) == lower(text),
{
    assert(lower(lower(text)) == lower(text));
}

/// The views of some texts.
pub open spec fn views(texts: Seq<String>) -> Seq<Seq<char>> {
    texts.map_values(|s: String| s@)
}

/// Whether two texts are the same.
pub fn same_text(a: &str, b: &str) -> (r: bool)
    ensures
        r == (a@ == b@),
{
    a.to_owned() == b.to_owned()
}

/// The characters of a text.
pub fn chars_of(text: &str) -> (r: Vec<char>)
    ensures
        r@ == text@,
{
    let mut out: Vec<char> = Vec::new();
    let mut rest = text.chars();
    loop
        invariant_except_break
            vstd::std_specs::iter::IteratorSpec::decrease(&rest) is Some,
            out@ + vstd::std_specs::iter::IteratorSpec::remaining(&rest) == text@,
        ensures
            out@ == text@,
        decreases vstd::std_specs::iter::IteratorSpec::decrease(&rest)->0,
    {
        let ghost left = vstd::std_specs::iter::IteratorSpec::remaining(&rest);
        match rest.next() {
            Some(c) => {
                out.push(c);
                proof {
                    assert(seq![left[0]] + left.drop_first() == left);
                    assert(out@ + vstd::std_specs::iter::IteratorSpec::remaining(&rest) == text@);
                }
            },
            None => {
                proof {
                    assert(out@ == text@);
                }
                break ;
            },
        }
    }
    out
}

/// Copies some texts.
pub fn clone_texts(texts: &Vec<String>) -> (r: Vec<String>)
    ensures
        r@ == texts@,
{
    let mut out: Vec<String> = Vec::new();
    let mut i: usize = 0;
    while i < texts.len()
        invariant
            i <= texts@.len(),
            out@ == texts@.take(i as int),
        decreases texts@.len() - i,
    {
        out.push(texts[i].clone());
        i = i + 1;
    }
    proof {
        assert(texts@.take(texts@.len() as int) == texts@);
    }
    out
}

/// Whether a text begins with another.
pub fn has_prefix(text: &str, prefix: &str) -> (r: bool)
    ensures
        r == prefix@.is_prefix_of(text@),
{
    let text_chars = chars_of(text);
    let prefix_chars = chars_of(prefix);
    if prefix_chars.len() > text_chars.len() {
        return false;
    }
    let mut i: usize = 0;
    while i < prefix_chars.len()
        invariant
            i <= prefix_chars@.len() <= text_chars@.len(),
            prefix_chars@ == prefix@,
            text_chars@ == text@,
            forall|j: int| 0 <= j < i ==> prefix@[j] == text@[j],
        decreases prefix_chars@.len() - i,
    {
        if prefix_chars[i] != text_chars[i] {
            proof {
                assert(text@.subrange(0, prefix@.len() as int)[i as int] == text@[i as int]);
            }
            return false;
        }
        i = i + 1;
    }
    proof {
        assert(text@.subrange(0, prefix@.len() as int) == prefix@);
    }
    true
}

/// The place of the first occurrence of a character, or the length if there is none.
pub open spec fn first_index(text: Seq<char>, c: char) -> int
    decreases text.len(),
{
    if text.len() == 0 || text[0] == c {
        0
    } else {
        1 + first_index(text.skip(1), c)
    }
}

/// The first occurrence is one, and there is none before it.
pub proof fn lemma_first_index(text: Seq<char>, c: char)
    ensures
        0 <= first_index(text, c) <= text.len(),
        first_index(text, c) < text.len() ==> text[first_index(text, c)] == c,
        forall|i: int| 0 <= i < first_index(text, c) ==> text[i] != c,
    decreases text.len(),
{
    if text.len() > 0 && text[0] != c {
        let rest = text.skip(1);
        lemma_first_index(rest, c);
        assert forall|i: int| 0 <= i < first_index(text, c) implies text[i] != c by {
            if i > 0 {
                assert(rest[i - 1] == text[i]);
            }
        }
    }
}

/// Finds the first occurrence of a character from some place on.
pub fn find_char(text: &Vec<char>, from: usize, c: char) -> (r: usize)
    requires
        from <= text@.len(),
    ensures
        r == from + first_index(text@.skip(from as int), c),
        r <= text@.len(),
{
    let mut i: usize = from;
    proof {
        lemma_first_index(text@.skip(from as int), c);
    }
    while i < text.len() && text[i] != c
        invariant
            from <= i <= text@.len(),
            from + first_index(text@.skip(from as int), c) == i + first_index(
                text@.skip(i as int),
                c,
            ),
        decreases text@.len() - i,
    {
        proof {
            assert(text@.skip(i as int).skip(1) == text@.skip(i + 1));
        }
        i = i + 1;
    }
    i
}

// ---------------------------------------------------------------------------------------
// White space
// ---------------------------------------------------------------------------------------

/// Whether a character is white space in the sense of Unicode.
pub open spec fn is_white(c: char) -> bool {
    ||| 0x09 <= c as u32 <= 0x0d
    ||| c as u32 == 0x20
    ||| c as u32 == 0x85
    ||| c as u32 == 0xa0
    ||| c as u32 == 0x1680
    ||| 0x2000 <= c as u32 <= 0x200a
    ||| c as u32 == 0x2028
    ||| c as u32 == 0x2029
    ||| c as u32 == 0x202f
    ||| c as u32 == 0x205f
    ||| c as u32 == 0x3000
}

/// Whether a character is white space.
fn white(c: char) -> (r: bool)
    ensures
        r == is_white(c),
{
    let n: u32 = c as u32;
    (0x09 <= n && n <= 0x0d) || n == 0x20 || n == 0x85 || n == 0xa0 || n == 0x1680 || (0x2000 <= n
        && n <= 0x200a) || n == 0x2028 || n == 0x2029 || n == 0x202f || n == 0x205f || n == 0x3000
}

/// Text without the white space at its front.
pub open spec fn trimmed_front(text: Seq<char>) -> Seq<char>
    decreases text.len(),
{
    if text.len() > 0 && is_white(text[0]) {
        trimmed_front(text.skip(1))
    } else {
        text
    }
}

/// Text without the white space at its end.
pub open spec fn trimmed_back(text: Seq<char>) -> Seq<char>
    decreases text.len(),
{
    if text.len() > 0 && is_white(text.last()) {
        trimmed_back(text.drop_last())
    } else {
        text
    }
}

/// Text without the white space around it.
pub open spec fn trimmed(text: Seq<char>) -> Seq<char> {
    trimmed_back(trimmed_front(text))
}

/// Finds the part of a stretch of text that is left when the white space around it is dropped.
pub fn trim_range(text: &Vec<char>, from: usize, to: usize) -> (r: (usize, usize))
    requires
        from <= to <= text@.len(),
    ensures
        from <= r.0 <= r.1 <= to,
        text@.subrange(r.0 as int, r.1 as int) == trimmed(text@.subrange(from as int, to as int)),
{
    let mut a: usize = from;
    let mut b: usize = to;
    let ghost whole = text@.subrange(from as int, to as int);
    while a < b && white(text[a])
        invariant
            from <= a <= b,
            b == to,
            to <= text@.len(),
            trimmed_front(text@.subrange(a as int, to as int)) == trimmed_front(whole),
        decreases b - a,
    {
        proof {
            assert(text@.subrange(a as int, to as int).skip(1) == text@.subrange(
                a + 1,
                to as int,
            ));
        }
        a = a + 1;
    }
    while a < b && white(text[b - 1])
        invariant
            from <= a <= b <= to,
            to <= text@.len(),
            trimmed_back(text@.subrange(a as int, b as int)) == trimmed(whole),
        decreases b - a,
    {
        proof {
            assert(text@.subrange(a as int, b as int).drop_last() == text@.subrange(
                a as int,
                b - 1,
            ));
        }
        b = b - 1;
    }
    (a, b)
}

// ---------------------------------------------------------------------------------------
// Decimal numbers
// ---------------------------------------------------------------------------------------

/// Whether a character is an ASCII digit.
pub open spec fn is_digit(c: char) -> bool {
    '0' <= c <= '9'
}

/// Whether all characters are ASCII digits.
pub open spec fn all_digits(text: Seq<char>) -> bool {
    forall|i: int| 0 <= i < text.len() ==> is_digit(#[trigger] text[i])
}

/// The value of some digits.
pub open spec fn digits_value(text: Seq<char>) -> nat
    decreases text.len(),
{
    if text.len() == 0 {
        0
    } else {
        (digits_value(text.drop_last()) * 10 + (text.last() as u32 - '0' as u32)) as nat
    }
}

/// The number that a text stands for: one or more digits, with or without a plus sign before
/// them.
pub open spec fn decimal(text: Seq<char>) -> Option<nat> {
    let digits = if text.len() > 0 && text[0] == '+' {
        text.skip(1)
    } else {
        text
    };
    if digits.len() > 0 && all_digits(digits) {
        Some(digits_value(digits))
    } else {
        None
    }
}

/// The number that a text stands for, if it is no larger than `max`.
pub open spec fn decimal_up_to(text: Seq<char>, max: nat) -> Option<nat> {
    match decimal(text) {
        Some(value) => if value <= max {
            Some(value)
        } else {
            None
        },
        None => None,
    }
}

/// Reads a decimal number out of a stretch of text.
pub fn read_decimal(text: &Vec<char>, from: usize, to: usize, max: u64) -> (r: Option<u64>)
    requires
        from <= to <= text@.len(),
    ensures
        match r {
            Some(value) => decimal_up_to(text@.subrange(from as int, to as int), max as nat)
                == Some(value as nat),
            None => decimal_up_to(text@.subrange(from as int, to as int), max as nat) is None,
        },
{
    let ghost whole = text@.subrange(from as int, to as int);
    let start: usize = if from < to && text[from] == '+' {
        from + 1
    } else {
        from
    };
    let ghost digits = text@.subrange(start as int, to as int);
    proof {
        if start == from + 1 {
            assert(whole.skip(1) == digits);
        }
        assert(start > from ==> whole[0] == '+');
        assert(from < to ==> whole[0] == text@[from as int]);
        assert(decimal(whole) == if digits.len() > 0 && all_digits(digits) {
            Some(digits_value(digits))
        } else {
            None
        });
    }
    if start == to {
        return None;
    }
    let mut value: u64 = 0;
    let mut over = false;
    let mut i: usize = start;
    proof {
        assert(digits.take(0) == Seq::<char>::empty());
    }
    while i < to
        invariant
            start <= i <= to,
            to <= text@.len(),
            digits == text@.subrange(start as int, to as int),
            whole == text@.subrange(from as int, to as int),
            decimal(whole) == if digits.len() > 0 && all_digits(digits) {
                Some(digits_value(digits))
            } else {
                None
            },
            all_digits(digits.take(i - start)),
            !over ==> value == digits_value(digits.take(i - start)) && value <= max,
            over ==> digits_value(digits.take(i - start)) > max,
        decreases to - i,
    {
        let c = text[i];
        proof {
            assert(digits[i - start] == c);
            assert(digits.take(i - start + 1).drop_last() == digits.take(i - start));
        }
        if c < '0' || c > '9' {
            proof {
                assert(!is_digit(digits[i - start]));
            }
            return None;
        }
        let digit: u64 = (c as u32 - '0' as u32) as u64;
        if !over {
            let next: u128 = value as u128 * 10 + digit as u128;
            if next > max as u128 {
                over = true;
            } else {
                value = next as u64;
            }
        }
        proof {
            assert forall|j: int| 0 <= j < i - start + 1 implies is_digit(
                #[trigger] digits.take(i - start + 1)[j],
            ) by {
                if j < i - start {
                    assert(digits.take(i - start)[j] == digits.take(i - start + 1)[j]);
                }
            }
        }
        i = i + 1;
    }
    proof {
        assert(digits.take(to - start) == digits);
    }
    if over {
        None
    } else {
        Some(value)
    }
}

// ---------------------------------------------------------------------------------------
// Laws
// ---------------------------------------------------------------------------------------

/// White space is what Unicode says it is.
pub proof fn what_white_space_is(c: char)
    ensures
        is_white(c) <==> {
            ||| c == '\t' || c == '\n' || c == '\u{b}' || c == '\u{c}' || c == '\r' || c == ' '
            ||| c == '\u{85}' || c == '\u{a0}' || c == '\u{1680}'
            ||| '\u{2000}' <= c <= '\u{200a}'
            ||| c == '\u{2028}' || c == '\u{2029}' || c == '\u{202f}' || c == '\u{205f}'
            ||| c == '\u{3000}'
        },
{
}

/// Trimming takes away white space at the front and nothing else.
pub proof fn trimming_takes_the_front(front: Seq<char>, text: Seq<char>)
    requires
        forall|i: int| 0 <= i < front.len() ==> is_white(#[trigger] front[i]),
        text.len() > 0 ==> !is_white(text[0]),
    ensures
        trimmed_front(front + text) == text,
    decreases front.len(),
{
    let all = front + text;
    if front.len() == 0 {
        assert(all == text);
    } else {
        assert(all[0] == front[0]);
        let rest = front.skip(1);
        assert forall|i: int| 0 <= i < rest.len() implies is_white(#[trigger] rest[i]) by {
            assert(rest[i] == front[i + 1]);
        }
        trimming_takes_the_front(rest, text);
        assert(all.skip(1) == rest + text);
    }
}

/// Trimming takes away white space at the end and nothing else.
pub proof fn trimming_takes_the_end(text: Seq<char>, end: Seq<char>)
    requires
        forall|i: int| 0 <= i < end.len() ==> is_white(#[trigger] end[i]),
        text.len() > 0 ==> !is_white(text.last()),
    ensures
        trimmed_back(text + end) == text,
    decreases end.len(),
{
    let all = text + end;
    if end.len() == 0 {
        assert(all == text);
    } else {
        assert(all.last() == end.last());
        let rest = end.drop_last();
        assert forall|i: int| 0 <= i < rest.len() implies is_white(#[trigger] rest[i]) by {
            assert(rest[i] == end[i]);
        }
        trimming_takes_the_end(text, rest);
        assert(all.drop_last() == text + rest);
    }
}

/// Text that neither begins nor ends with white space is what is left of it with any white space
/// around it.
pub proof fn trimming_leaves_the_text(front: Seq<char>, text: Seq<char>, end: Seq<char>)
    requires
        forall|i: int| 0 <= i < front.len() ==> is_white(#[trigger] front[i]),
        forall|i: int| 0 <= i < end.len() ==> is_white(#[trigger] end[i]),
        text.len() > 0,
        !is_white(text[0]),
        !is_white(text.last()),
    ensures
        trimmed(front + text + end) == text,
{
    assert(front + text + end == front + (text + end));
    trimming_takes_the_front(front, text + end);
    trimming_takes_the_end(text, end);
}

/// A digit more makes a number ten times as large, and the digit more.
pub proof fn digits_count_ten_times(text: Seq<char>, digit: char)
    requires
        '0' <= digit <= '9',
    ensures
        decimal(seq![digit]) == Some((digit as u32 - 0x30) as nat),
        decimal(text) matches Some(n) ==> decimal(text.push(digit)) == Some(
            (10 * n + (digit as u32 - 0x30)) as nat,
        ),
{
    let one = seq![digit];
    assert(one.drop_last() == Seq::<char>::empty());
    assert(digits_value(Seq::<char>::empty()) == 0);
    assert(all_digits(one));
    if decimal(text) is Some {
        let longer = text.push(digit);
        let signed = text[0] == '+';
        let digits = if signed {
            text.skip(1)
        } else {
            text
        };
        let more = digits.push(digit);
        assert(text.len() > 0);
        assert(longer[0] == text[0]);
        if signed {
            assert(longer.skip(1) == more);
        }
        assert(more.drop_last() == digits);
        assert forall|i: int| 0 <= i < more.len() implies is_digit(#[trigger] more[i]) by {
            if i < digits.len() {
                assert(more[i] == digits[i]);
            }
        }
    }
}

/// A plus sign before digits changes nothing, and a text is a number exactly if it is digits, one
/// at least, but for such a sign.
pub proof fn what_a_number_is(text: Seq<char>)
    ensures
        text.len() > 0 && text[0] != '+' ==> decimal(seq!['+'] + text) == decimal(text),
        text.len() == 0 || text[0] != '+' ==> (decimal(text) is Some <==> text.len() > 0 && forall|
            i: int,
        |
            0 <= i < text.len() ==> '0' <= #[trigger] text[i] && text[i] <= '9'),
        decimal(seq!['+', '+'] + text) is None,
{
    let signed = seq!['+'] + text;
    assert(signed.skip(1) == text);
    let twice = seq!['+', '+'] + text;
    assert(twice.skip(1)[0] == '+');
    if text.len() > 0 && text[0] != '+' && (forall|i: int|
        0 <= i < text.len() ==> '0' <= #[trigger] text[i] && text[i] <= '9') {
        assert(all_digits(text));
    }
}

/// A bound leaves out the numbers above it and no others.
pub proof fn bounds_leave_out_larger_numbers(text: Seq<char>, max: nat)
    ensures
        decimal(text) matches Some(n) ==> decimal_up_to(text, max) == if n <= max {
            Some(n)
        } else {
            None
        },
        decimal(text) is None ==> decimal_up_to(text, max) is None,
{
}

/// Case makes no difference between ASCII letters, and nothing but ASCII letters has case here.
pub proof fn lowering_maps_capitals(c: char)
    ensures
        lower(seq!['A', 'M', 'Z']) == seq!['a', 'm', 'z'],
        !('A' <= c <= 'Z') ==> lower_char(c) == c,
        'A' <= c <= 'Z' ==> 'a' <= lower_char(c) <= 'z' && lower_char(c) as u32 - 'a' as u32
            == c as u32 - 'A' as u32,
{
    assert(lower(seq!['A', 'M', 'Z']) =~= seq!['a', 'm', 'z']);
}

/// Texts stand for their characters, one by one.
pub proof fn texts_stand_for_their_characters(texts: Seq<String>, i: int)
    ensures
        views(texts).len() == texts.len(),
        0 <= i < texts.len() ==> views(texts)[i] == texts[i]@,
{
}

} // verus!
