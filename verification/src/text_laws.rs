//! What the text helpers give, told by characters and numbers.

use vstd::prelude::*;
use vstd::string::*;
use vstd::utf8::*;

use crate::text;

verus! {

/// The whitespace characters are those that Unicode lists.
pub proof fn whitespace_is_unicodes(c: char, r: bool)
    requires
        call_ensures(text::whitespace, (c,), r),
    ensures
        r <==> ({
            let n = c as u32;
            ||| 9 <= n <= 13
            ||| n == 0x20 || n == 0x85 || n == 0xa0 || n == 0x1680
            ||| 0x2000 <= n <= 0x200a
            ||| n == 0x2028 || n == 0x2029 || n == 0x202f || n == 0x205f || n == 0x3000
        }),
        r == text::is_whitespace(c),
{
}

/// A trimmed text is the text from its first to its last character that is no whitespace.
pub proof fn trimming_takes_off_just_the_whitespace(s: &str, r: &str)
    requires
        call_ensures(text::trim, (s,), r),
    ensures
        exists|from: int, to: int|
            {
                &&& 0 <= from <= to <= s@.len()
                &&& r@ == #[trigger] s@.subrange(from, to)
                &&& forall|i: int|
                    0 <= i < from || to <= i < s@.len() ==> text::is_whitespace(#[trigger] s@[i])
                &&& from < to ==> !text::is_whitespace(s@[from]) && !text::is_whitespace(
                    s@[to - 1],
                )
            },
{
    let start = lemma_trimmed_start(s@);
    let rest = s@.skip(start);
    let n = lemma_trimmed_end(rest);
    assert(rest.take(n) =~= s@.subrange(start, start + n));
    assert forall|i: int| 0 <= i < start || start + n <= i < s@.len() implies text::is_whitespace(
        #[trigger] s@[i],
    ) by {
        if i >= start {
            assert(rest[i - start] == s@[i]);
        }
    }
    if n > 0 {
        assert(rest[0] == s@[start]);
        assert(rest[n - 1] == s@[start + n - 1]);
    }
}

proof fn lemma_trimmed_start(s: Seq<char>) -> (n: int)
    ensures
        0 <= n <= s.len(),
        text::trimmed_start(s) == s.skip(n),
        forall|i: int| 0 <= i < n ==> text::is_whitespace(#[trigger] s[i]),
        n < s.len() ==> !text::is_whitespace(s[n]),
    decreases s.len(),
{
    if s.len() > 0 && text::is_whitespace(s[0]) {
        let n = lemma_trimmed_start(s.drop_first());
        assert(s.drop_first().skip(n) =~= s.skip(n + 1));
        assert forall|i: int| 0 <= i < n + 1 implies text::is_whitespace(#[trigger] s[i]) by {
            if i > 0 {
                assert(s.drop_first()[i - 1] == s[i]);
            }
        }
        n + 1
    } else {
        assert(s.skip(0) =~= s);
        0
    }
}

proof fn lemma_trimmed_end(s: Seq<char>) -> (n: int)
    ensures
        0 <= n <= s.len(),
        text::trimmed_end(s) == s.take(n),
        forall|i: int| n <= i < s.len() ==> text::is_whitespace(#[trigger] s[i]),
        n > 0 ==> !text::is_whitespace(s[n - 1]),
        s.len() > 0 && !text::is_whitespace(s[0]) ==> n > 0,
    decreases s.len(),
{
    if s.len() > 0 && text::is_whitespace(s.last()) {
        let n = lemma_trimmed_end(s.drop_last());
        assert(s.drop_last().take(n) =~= s.take(n));
        assert forall|i: int| n <= i < s.len() implies text::is_whitespace(#[trigger] s[i]) by {
            if i < s.len() - 1 {
                assert(s.drop_last()[i] == s[i]);
            }
        }
        n
    } else {
        assert(s.take(s.len() as int) =~= s);
        s.len() as int
    }
}

/// A text is blank just where each of its characters is whitespace.
pub proof fn blank_is_all_whitespace(s: &str, r: bool)
    requires
        call_ensures(text::is_blank, (s,), r),
    ensures
        r <==> forall|i: int| 0 <= i < s@.len() ==> text::is_whitespace(#[trigger] s@[i]),
{
}

/// Texts are the same just where their characters are, and the same as a text that is absent just
/// where they are absent too.
pub proof fn comparisons_go_by_characters(
    a: &str,
    b: &str,
    same: bool,
    oa: &Option<String>,
    ob: &Option<String>,
    same_opt: bool,
    is_text: bool,
)
    requires
        call_ensures(text::same, (a, b), same),
        call_ensures(text::same_opt, (oa, ob), same_opt),
        call_ensures(text::is_text, (oa, b), is_text),
    ensures
        same <==> a@ == b@,
        same_opt <==> (oa is None && ob is None || oa is Some && ob is Some && oa->0@ == ob->0@),
        is_text <==> oa is Some && oa->0@ == b@,
{
}

/// A text has a character just where one of its characters is that, and begins with another just
/// where it goes on from there.
pub proof fn searches_go_by_characters(
    s: &str,
    wanted: char,
    has: bool,
    prefix: &str,
    starts: bool,
)
    requires
        call_ensures(text::has_char, (s, wanted), has),
        call_ensures(text::starts_with, (s, prefix), starts),
    ensures
        has <==> exists|i: int| 0 <= i < s@.len() && s@[i] == wanted,
        starts <==> exists|rest: Seq<char>| s@ == prefix@ + rest,
{
    if starts {
        let rest = s@.skip(prefix@.len() as int);
        assert(s@ =~= prefix@ + rest);
    }
    if exists|rest: Seq<char>| s@ == prefix@ + rest {
        let rest = choose|rest: Seq<char>| s@ == prefix@ + rest;
        assert(s@.take(prefix@.len() as int) =~= prefix@);
    }
}

/// Joining nothing gives nothing, joining one text gives that text, and one more text comes behind
/// the separator. Concatenating puts one text behind the other.
pub proof fn joining_goes_text_by_text(
    parts: &Vec<String>,
    more: &Vec<String>,
    separator: &str,
    last: String,
    joined: String,
    longer: String,
)
    requires
        call_ensures(text::join, (parts, separator), joined),
        call_ensures(text::join, (more, separator), longer),
        more@ == parts@.push(last),
    ensures
        parts@.len() == 0 ==> joined@.len() == 0 && longer@ == last@,
        parts@.len() > 0 ==> longer@ == joined@ + separator@ + last@,
{
    assert(text::texts(more@).drop_last() =~= text::texts(parts@));
    assert(text::texts(more@).last() == last@);
}

/// A number below ten is written as its digit; one more digit on the right stands for ten times the
/// number and that digit.
pub proof fn decimals_go_digit_by_digit(
    out: &mut String,
    longer: &mut String,
    n: u64,
    m: u64,
)
    requires
        call_ensures(text::append_decimal, (out, n), ()),
        call_ensures(text::append_decimal, (longer, m), ()),
        old(out)@ == old(longer)@,
    ensures
        n < 10 ==> final(out)@ == old(out)@.push((48 + n) as char),
        10 <= 10 * n <= m <= 10 * n + 9 ==> final(longer)@ == final(out)@.push(
            (48 + (m - 10 * n)) as char,
        ),
{
    if n < 10 {
        assert(final(out)@ =~= old(out)@.push((48 + n) as char));
    }
    if 10 <= 10 * n <= m <= 10 * n + 9 {
        assert(m as nat / 10 == n as nat);
        assert(final(longer)@ =~= final(out)@.push((48 + (m - 10 * n)) as char));
    }
}

/// A number that is filled up has zeros before its digits, just as many as it takes to reach the
/// width.
pub proof fn padding_is_zeros(out: &mut String, plain: &mut String, n: u64, width: usize)
    requires
        call_ensures(text::append_zero_padded, (out, n, width), ()),
        call_ensures(text::append_decimal, (plain, n), ()),
        old(plain)@.len() == 0,
    ensures
        ({
            let digits = final(plain)@;
            let added = final(out)@.skip(old(out)@.len() as int);
            &&& final(out)@ == old(out)@ + added
            &&& digits.len() >= width ==> added == digits
            &&& digits.len() < width ==> added.len() == width && added.skip(width - digits.len())
                == digits && forall|i: int|
                0 <= i < width - digits.len() ==> #[trigger] added[i] == '0'
        }),
{
    let digits = text::decimal(n as nat);
    assert(final(plain)@ =~= digits);
    let padded = text::zero_padded(n as nat, width as nat);
    assert(final(out)@.skip(old(out)@.len() as int) =~= padded);
    if digits.len() < width {
        assert(padded.skip(width - digits.len()) =~= digits);
    }
}

/// A negative number is its magnitude behind a minus sign, which counts for the width.
pub proof fn a_sign_counts_for_the_width(
    out: &mut String,
    plain: &mut String,
    n: i32,
    magnitude: u64,
    width: usize,
    plain_width: usize,
)
    requires
        call_ensures(text::append_signed_zero_padded, (out, n, width), ()),
        call_ensures(text::append_zero_padded, (plain, magnitude, plain_width), ()),
        width > 0,
        magnitude == if n < 0 {
            -n
        } else {
            n as int
        },
        plain_width == if n < 0 {
            width - 1
        } else {
            width as int
        },
        old(plain)@ == if n < 0 {
            old(out)@.push('-')
        } else {
            old(out)@
        },
    ensures
        final(out)@ == final(plain)@,
{
    assert(final(out)@ =~= final(plain)@);
}

/// Digits are read from left to right; a plus sign may come first, and for a signed number a minus
/// sign. Anything else is no number.
pub proof fn numbers_are_read_digit_by_digit(
    s: &str,
    longer: &str,
    c: char,
    value: Option<u32>,
    more: Option<u32>,
)
    requires
        call_ensures(text::parse_unsigned, (s,), value),
        call_ensures(text::parse_unsigned, (longer,), more),
        longer@ == s@.push(c),
    ensures
        s@.len() == 0 || s@ == seq!['+'] ==> value is None,
        !('0' <= c <= '9') && !(s@.len() == 0 && c == '+') ==> more is None,
        s@.len() == 0 && '0' <= c <= '9' ==> more == Some((c as u32 - 48) as u32),
        s@ == seq!['+'] && '0' <= c <= '9' ==> more == Some((c as u32 - 48) as u32),
        s@.len() > 0 && s@ != seq!['+'] && '0' <= c <= '9' ==> {
            &&& value is None ==> more is None
            &&& value matches Some(n) ==> (more matches Some(m) && m == 10 * n + (c as u32 - 48))
        },
{
    let t = longer@;
    assert(t.drop_last() =~= s@);
    assert(t.last() == c);
    reveal_with_fuel(text::digits_value, 3);
    if s@.len() > 0 {
        assert(t[0] == s@[0]);
        assert(t.skip(1).drop_last() =~= s@.skip(1));
        assert(t.skip(1).last() == c);
        lemma_digits_push(s@, c);
        lemma_digits_push(s@.skip(1), c);
        assert(t.skip(1) =~= s@.skip(1).push(c));
        if s@ == seq!['+'] {
            assert(s@.skip(1).len() == 0);
        }
        if s@[0] == '+' && s@.len() == 1 {
            assert(s@ =~= seq!['+']);
        }
    } else {
        lemma_digits_push(s@, c);
        assert(t.skip(1).len() == 0);
    }
}

proof fn lemma_digits_push(s: Seq<char>, c: char)
    ensures
        text::all_digits(s.push(c)) <==> (s.len() == 0 || text::all_digits(s)) && text::is_digit(c),
        text::digits_value(s.push(c)) == 10 * text::digits_value(s) + (c as nat - 48) as nat,
{
    assert(s.push(c).drop_last() =~= s);
    if text::all_digits(s.push(c)) {
        assert forall|i: int| 0 <= i < s.len() implies text::is_digit(#[trigger] s[i]) by {
            assert(s.push(c)[i] == s[i]);
        }
        assert(s.push(c)[s.len() as int] == c);
    }
}

/// A signed number is what an unsigned one is, or the negative of the digits behind a minus sign.
pub proof fn a_minus_sign_negates(
    s: &str,
    signed: Option<i32>,
    unsigned: Option<u32>,
    rest: &str,
    digits: Option<u32>,
)
    requires
        call_ensures(text::parse_signed, (s,), signed),
        call_ensures(text::parse_unsigned, (s,), unsigned),
        call_ensures(text::parse_unsigned, (rest,), digits),
        s@.len() > 0 ==> rest@ == s@.skip(1),
    ensures
        s@.len() == 0 || s@[0] != '-' ==> {
            &&& unsigned is None <==> signed is None
            &&& unsigned matches Some(n) ==> (signed matches Some(m) && m == n)
        },
        s@.len() > 0 && s@[0] == '-' ==> unsigned is None,
        s@.len() > 0 && s@[0] == '-' && (s@.len() == 1 || s@[1] != '+') ==> {
            &&& digits is None <==> signed is None
            &&& digits matches Some(n) ==> (signed matches Some(m) && m == -n)
        },
        s@.len() > 1 && s@[0] == '-' && s@[1] == '+' ==> signed is None,
{
    if s@.len() > 0 && s@[0] == '-' {
        assert(!text::is_digit(s@[0]));
        if s@.len() > 1 {
            assert(rest@[0] == s@[1]);
        }
    }
}

/// Each byte is written as two hexadecimal digits in lower case, the high one first.
pub proof fn hexadecimal_goes_byte_by_byte(
    out: &mut String,
    longer: &mut String,
    bytes: &[u8],
    more: &[u8],
    byte: u8,
)
    requires
        call_ensures(text::append_lower_hex, (out, bytes), ()),
        call_ensures(text::append_lower_hex, (longer, more), ()),
        more@ == bytes@.push(byte),
        old(out)@ == old(longer)@,
    ensures
        bytes@.len() == 0 ==> final(out)@ == old(out)@,
        ({
            let high = byte as int / 16;
            let low = byte as int % 16;
            final(longer)@ == final(out)@.push(
                (if high < 10 {
                    48 + high
                } else {
                    87 + high
                }) as char,
            ).push(
                (if low < 10 {
                    48 + low
                } else {
                    87 + low
                }) as char,
            )
        }),
{
    assert(more@.drop_last() =~= bytes@);
    if bytes@.len() == 0 {
        assert(final(out)@ =~= old(out)@);
    }
    let high = byte as int / 16;
    let low = byte as int % 16;
    assert(final(longer)@ =~= final(out)@.push(
        (if high < 10 {
            48 + high
        } else {
            87 + high
        }) as char,
    ).push(
        (if low < 10 {
            48 + low
        } else {
            87 + low
        }) as char,
    ));
}

/// The length of a text in bytes is that of its UTF-8 encoding.
pub proof fn byte_lengths_are_those_of_utf8(s: &str, n: usize)
    requires
        call_ensures(text::str_byte_len, (s,), n),
    ensures
        n == encode_utf8(s@).len(),
{
}

} // verus!
