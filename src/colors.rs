use vstd::prelude::*;
use vstd::string::*;

verus! {

/// An RGB color with an optional alpha channel, one byte per channel.
#[derive(Clone, Copy, Debug, PartialEq, Eq, Structural)]
pub struct Color {
    pub a: Option<u8>,
    pub r: u8,
    pub g: u8,
    pub b: u8,
}

/// Why a string could not be read as a color.
#[derive(Clone, Copy, Debug, PartialEq, Eq, Structural)]
pub enum ColorParseError {
    /// The digits (after an optional leading `#`) are not 3, 4, 6 or 8 long.
    InvalidStringLength(usize),
    /// A digit is not one of `0-9a-fA-F`.
    CharOutOfRange(char),
}

pub open spec fn is_hex_char(c: char) -> bool {
    ('0' <= c && c <= '9') || ('a' <= c && c <= 'f') || ('A' <= c && c <= 'F')
}

/// The value of a hexadecimal digit, either case.
pub open spec fn hex_value(c: char) -> int {
    if '0' <= c && c <= '9' {
        (c as u32) - ('0' as u32)
    } else if 'a' <= c && c <= 'f' {
        (c as u32) - ('a' as u32) + 10
    } else {
        (c as u32) - ('A' as u32) + 10
    }
}

/// The digits of a color string: the text without one leading `#`.
pub open spec fn color_digits(s: Seq<char>) -> Seq<char> {
    if s.len() > 0 && s[0] == '#' {
        s.drop_first()
    } else {
        s
    }
}

/// The first character of `d` that is not a hex digit, if any.
pub open spec fn first_non_hex(d: Seq<char>) -> Option<char>
    decreases d.len(),
{
    if d.len() == 0 {
        None
    } else if !is_hex_char(d[0]) {
        Some(d[0])
    } else {
        first_non_hex(d.drop_first())
    }
}

/// Short forms (fewer than six digits) have every digit doubled.
pub open spec fn expand_digits(d: Seq<char>) -> Seq<char> {
    if d.len() < 6 {
        Seq::new(2 * d.len(), |k: int| d[k / 2])
    } else {
        d
    }
}

/// The byte written by the two digits of `e` at `i` and `i + 1`.
pub open spec fn byte_at(e: Seq<char>, i: int) -> u8 {
    (16 * hex_value(e[i]) + hex_value(e[i + 1])) as u8
}

/// What a color string denotes.
pub open spec fn parse_color(s: Seq<char>) -> Result<Color, ColorParseError> {
    let d = color_digits(s);
    match first_non_hex(d) {
        Some(c) => Err(ColorParseError::CharOutOfRange(c)),
        None => {
            let e = expand_digits(d);
            if e.len() == 6 {
                Ok(Color { a: None, r: byte_at(e, 0), g: byte_at(e, 2), b: byte_at(e, 4) })
            } else if e.len() == 8 {
                Ok(
                    Color {
                        a: Some(byte_at(e, 0)),
                        r: byte_at(e, 2),
                        g: byte_at(e, 4),
                        b: byte_at(e, 6),
                    },
                )
            } else {
                Err(ColorParseError::InvalidStringLength(d.len() as usize))
            }
        },
    }
}

pub open spec fn upper_hex_digits() -> Seq<char> {
    seq!['0', '1', '2', '3', '4', '5', '6', '7', '8', '9', 'A', 'B', 'C', 'D', 'E', 'F']
}

/// Two uppercase hex digits for a byte.
pub open spec fn byte_hex(v: u8) -> Seq<char> {
    seq![upper_hex_digits()[(v / 16) as int], upper_hex_digits()[(v % 16) as int]]
}

/// The canonical form of a color: `#`, then alpha (if any), red, green, blue.
pub open spec fn color_text(c: Color) -> Seq<char> {
    let body = byte_hex(c.r) + byte_hex(c.g) + byte_hex(c.b);
    match c.a {
        Some(a) => seq!['#'] + byte_hex(a) + body,
        None => seq!['#'] + body,
    }
}

proof fn lemma_hex_digit_value(n: int)
    requires
        0 <= n < 16,
    ensures
        is_hex_char(upper_hex_digits()[n]),
        hex_value(upper_hex_digits()[n]) == n,
{
}

proof fn lemma_byte_hex(v: u8)
    ensures
        is_hex_char(byte_hex(v)[0]),
        is_hex_char(byte_hex(v)[1]),
        (16 * hex_value(byte_hex(v)[0]) + hex_value(byte_hex(v)[1])) as u8 == v,
{
    lemma_hex_digit_value((v / 16) as int);
    lemma_hex_digit_value((v % 16) as int);
}

proof fn lemma_all_hex(d: Seq<char>)
    requires
        forall|i: int| 0 <= i < d.len() ==> is_hex_char(#[trigger] d[i]),
    ensures
        first_non_hex(d) == None::<char>,
    decreases d.len(),
{
    if d.len() > 0 {
        lemma_all_hex(d.drop_first());
    }
}

proof fn lemma_first_non_hex_found(d: Seq<char>, i: int)
    requires
        0 <= i < d.len(),
        !is_hex_char(d[i]),
        forall|j: int| 0 <= j < i ==> is_hex_char(#[trigger] d[j]),
    ensures
        first_non_hex(d) == Some(d[i]),
    decreases i,
{
    if i > 0 {
        lemma_first_non_hex_found(d.drop_first(), i - 1);
    }
}

/// The canonical form of a color reads back as the same color.
pub proof fn lemma_color_text_parses(c: Color)
    ensures
        parse_color(color_text(c)) == Ok::<Color, ColorParseError>(c),
{
    lemma_byte_hex(c.r);
    lemma_byte_hex(c.g);
    lemma_byte_hex(c.b);
    let t = color_text(c);
    let d = color_digits(t);
    let body = byte_hex(c.r) + byte_hex(c.g) + byte_hex(c.b);
    match c.a {
        Some(a) => {
            lemma_byte_hex(a);
            assert(d =~= byte_hex(a) + body);
        },
        None => {
            assert(d =~= body);
        },
    }
    lemma_all_hex(d);
}

/// Reading a color, printing it in canonical form and reading that again gives
/// the color first read.
pub proof fn lemma_color_round_trip(s: Seq<char>)
    requires
        parse_color(s) is Ok,
    ensures
        parse_color(color_text(parse_color(s)->Ok_0)) == parse_color(s),
{
    lemma_color_text_parses(parse_color(s)->Ok_0);
}

/// Hex digits of a length other than 3, 4, 6 or 8 are refused with that length.
pub proof fn lemma_bad_length(s: Seq<char>)
    requires
        forall|i: int|
            0 <= i < color_digits(s).len() ==> is_hex_char(#[trigger] color_digits(s)[i]),
        color_digits(s).len() != 3,
        color_digits(s).len() != 4,
        color_digits(s).len() != 6,
        color_digits(s).len() != 8,
        color_digits(s).len() <= usize::MAX,
    ensures
        parse_color(s) == Err::<Color, ColorParseError>(
            ColorParseError::InvalidStringLength(color_digits(s).len() as usize),
        ),
{
    lemma_all_hex(color_digits(s));
}

/// `c` and `d` are the same character, or the same hex letter in lower and
/// upper case.
pub open spec fn same_ignoring_hex_case(c: char, d: char) -> bool {
    c == d || ('a' <= c && c <= 'f' && (d as u32) == (c as u32) - 32) || ('a' <= d && d <= 'f' && (c
        as u32) == (d as u32) - 32)
}

pub open spec fn same_text_ignoring_hex_case(s: Seq<char>, t: Seq<char>) -> bool {
    s.len() == t.len() && forall|i: int|
        0 <= i < s.len() ==> same_ignoring_hex_case(#[trigger] s[i], t[i])
}

proof fn lemma_same_char(c: char, d: char)
    requires
        same_ignoring_hex_case(c, d),
    ensures
        is_hex_char(c) == is_hex_char(d),
        is_hex_char(c) ==> hex_value(c) == hex_value(d),
        !is_hex_char(c) ==> c == d,
{
}

proof fn lemma_first_non_hex_same(d: Seq<char>, e: Seq<char>)
    requires
        same_text_ignoring_hex_case(d, e),
    ensures
        first_non_hex(d) == first_non_hex(e),
    decreases d.len(),
{
    if d.len() > 0 {
        lemma_same_char(d[0], e[0]);
        assert(same_text_ignoring_hex_case(d.drop_first(), e.drop_first())) by {
            assert forall|i: int| 0 <= i < d.len() - 1 implies same_ignoring_hex_case(
                #[trigger] d.drop_first()[i],
                e.drop_first()[i],
            ) by {
                assert(same_ignoring_hex_case(d[i + 1], e[i + 1]));
            }
        }
        lemma_first_non_hex_same(d.drop_first(), e.drop_first());
    }
}

/// Hex digits are read without regard to case: two strings that differ only
/// in the case of hex letters denote the same color, or fail alike.
pub proof fn lemma_hex_case_insensitive(s: Seq<char>, t: Seq<char>)
    requires
        same_text_ignoring_hex_case(s, t),
    ensures
        parse_color(s) == parse_color(t),
{
    let d = color_digits(s);
    let e = color_digits(t);
    if s.len() > 0 {
        lemma_same_char(s[0], t[0]);
    }
    assert(same_text_ignoring_hex_case(d, e)) by {
        if s.len() > 0 && s[0] == '#' {
            assert forall|i: int| 0 <= i < d.len() implies same_ignoring_hex_case(#[trigger] d[i], e[i]) by {
                assert(same_ignoring_hex_case(s[i + 1], t[i + 1]));
            }
        }
    }
    lemma_first_non_hex_same(d, e);
    if first_non_hex(d) is None {
        lemma_first_non_hex_all_hex(d);
        let xd = expand_digits(d);
        let xe = expand_digits(e);
        assert forall|i: int| 0 <= i < xd.len() implies hex_value(#[trigger] xd[i]) == hex_value(xe[i]) by {
            let k = if d.len() < 6 { i / 2 } else { i };
            assert(xd[i] == d[k] && xe[i] == e[k]);
            lemma_same_char(d[k], e[k]);
        }
        if xd.len() >= 2 {
            assert(byte_at(xd, 0) == byte_at(xe, 0));
        }
        if xd.len() >= 4 {
            assert(byte_at(xd, 2) == byte_at(xe, 2));
        }
        if xd.len() >= 6 {
            assert(byte_at(xd, 4) == byte_at(xe, 4));
        }
        if xd.len() >= 8 {
            assert(byte_at(xd, 6) == byte_at(xe, 6));
        }
    }
}

proof fn lemma_first_non_hex_all_hex(d: Seq<char>)
    requires
        first_non_hex(d) is None,
    ensures
        forall|i: int| 0 <= i < d.len() ==> is_hex_char(#[trigger] d[i]),
    decreases d.len(),
{
    if d.len() > 0 {
        lemma_first_non_hex_all_hex(d.drop_first());
        assert forall|i: int| 0 <= i < d.len() implies is_hex_char(#[trigger] d[i]) by {
            if i > 0 {
                assert(d[i] == d.drop_first()[i - 1]);
            }
        }
    }
}

proof fn lemma_first_non_hex_some(d: Seq<char>, i: int)
    requires
        0 <= i < d.len(),
        !is_hex_char(d[i]),
    ensures
        first_non_hex(d) is Some,
        !is_hex_char(first_non_hex(d)->0),
        d.contains(first_non_hex(d)->0),
    decreases i,
{
    if is_hex_char(d[0]) {
        lemma_first_non_hex_some(d.drop_first(), i - 1);
        let k = choose|k: int| 0 <= k < d.len() - 1 && d.drop_first()[k] == first_non_hex(d)->0;
        assert(d[k + 1] == first_non_hex(d)->0);
    } else {
        assert(d[0] == first_non_hex(d)->0);
    }
}

/// A string holding a character that is not a hex digit is refused, and the
/// error names a character of the string that is not a hex digit: the first
/// one.
pub proof fn lemma_bad_char(s: Seq<char>, i: int)
    requires
        0 <= i < color_digits(s).len(),
        !is_hex_char(color_digits(s)[i]),
    ensures
        parse_color(s) is Err,
        parse_color(s)->Err_0 is CharOutOfRange,
        !is_hex_char(parse_color(s)->Err_0->CharOutOfRange_0),
        color_digits(s).contains(parse_color(s)->Err_0->CharOutOfRange_0),
        (forall|j: int| 0 <= j < i ==> is_hex_char(#[trigger] color_digits(s)[j])) ==> parse_color(s)
            == Err::<Color, ColorParseError>(ColorParseError::CharOutOfRange(color_digits(s)[i])),
{
    lemma_first_non_hex_some(color_digits(s), i);
    if forall|j: int| 0 <= j < i ==> is_hex_char(#[trigger] color_digits(s)[j]) {
        lemma_first_non_hex_found(color_digits(s), i);
    }
}

fn is_hex_digit(c: char) -> (r: bool)
    ensures
        r == is_hex_char(c),
{
    ('0' <= c && c <= '9') || ('a' <= c && c <= 'f') || ('A' <= c && c <= 'F')
}

fn digit_value(c: char) -> (r: u8)
    requires
        is_hex_char(c),
    ensures
        r as int == hex_value(c),
        r < 16,
{
    if '0' <= c && c <= '9' {
        ((c as u32) - ('0' as u32)) as u8
    } else if 'a' <= c && c <= 'f' {
        ((c as u32) - ('a' as u32) + 10) as u8
    } else {
        ((c as u32) - ('A' as u32) + 10) as u8
    }
}

/// The byte at position `j` of the expanded digits of `d`.
fn expanded_byte(d: &str, j: usize) -> (r: u8)
    requires
        forall|i: int| 0 <= i < d@.len() ==> is_hex_char(#[trigger] d@[i]),
        d@.len() < 6 ==> 2 * j + 1 < 2 * d@.len(),
        d@.len() >= 6 ==> 2 * j + 1 < d@.len(),
    ensures
        r == byte_at(expand_digits(d@), 2 * j as int),
{
    let ghost e = expand_digits(d@);
    let n = d.unicode_len();
    if n < 6 {
        let v = digit_value(d.get_char(j));
        assert(e[2 * j as int] == d@[j as int]);
        assert(e[2 * j as int + 1] == d@[j as int]);
        16 * v + v
    } else {
        let hi = digit_value(d.get_char(2 * j));
        let lo = digit_value(d.get_char(2 * j + 1));
        16 * hi + lo
    }
}

impl Color {
    /// Reads a color from `#RGB`, `#RGBA`, `#RRGGBB` or `#RRGGBBAA` (the `#`
    /// optional, digits in either case). With four or eight digits the first
    /// two stand for alpha.
    pub fn try_from(value: &str) -> (r: Result<Color, ColorParseError>)
        ensures
            r == parse_color(value@),
    {
        let n = value.unicode_len();
        let start: usize = if n > 0 && value.get_char(0) == '#' {
            1
        } else {
            0
        };
        let d = value.substring_char(start, n);
        proof {
            assert(d@ =~= color_digits(value@));
        }
        let len = d.unicode_len();
        let mut i: usize = 0;
        while i < len
            invariant
                len == d@.len(),
                d@ == color_digits(value@),
                i <= len,
                forall|j: int| 0 <= j < i ==> is_hex_char(#[trigger] d@[j]),
            decreases len - i,
        {
            let c = d.get_char(i);
            if !is_hex_digit(c) {
                proof {
                    lemma_first_non_hex_found(d@, i as int);
                }
                return Err(ColorParseError::CharOutOfRange(c));
            }
            i += 1;
        }
        proof {
            lemma_all_hex(d@);
        }
        if len == 3 || len == 6 {
            Ok(Color { a: None, r: expanded_byte(d, 0), g: expanded_byte(d, 1), b: expanded_byte(d, 2) })
        } else if len == 4 || len == 8 {
            Ok(
                Color {
                    a: Some(expanded_byte(d, 0)),
                    r: expanded_byte(d, 1),
                    g: expanded_byte(d, 2),
                    b: expanded_byte(d, 3),
                },
            )
        } else {
            Err(ColorParseError::InvalidStringLength(len))
        }
    }

    /// The canonical text of the color: `#` and two uppercase hex digits per
    /// channel, alpha first when present.
    pub fn to_string(&self) -> (r: String)
        ensures
            r@ == color_text(*self),
    {
        let mut out = String::from_str("#");
        proof {
            reveal_strlit("#");
        }
        match self.a {
            Some(a) => push_byte_hex(&mut out, a),
            None => {},
        }
        push_byte_hex(&mut out, self.r);
        push_byte_hex(&mut out, self.g);
        push_byte_hex(&mut out, self.b);
        proof {
            let body = byte_hex(self.r) + byte_hex(self.g) + byte_hex(self.b);
            match self.a {
                Some(a) => {
                    assert(out@ =~= seq!['#'] + byte_hex(a) + body);
                },
                None => {
                    assert(out@ =~= seq!['#'] + body);
                },
            }
        }
        out
    }
}

fn push_byte_hex(out: &mut String, v: u8)
    ensures
        final(out)@ == old(out)@ + byte_hex(v),
{
    let digits = "0123456789ABCDEF";
    proof {
        reveal_strlit("0123456789ABCDEF");
        assert(digits@ =~= upper_hex_digits());
    }
    let hi = (v / 16) as usize;
    let lo = (v % 16) as usize;
    out.append(digits.substring_char(hi, hi + 1));
    out.append(digits.substring_char(lo, lo + 1));
    proof {
        assert(final(out)@ =~= old(out)@ + byte_hex(v));
    }
}

} // verus!
