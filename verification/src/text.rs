//! Text handling: the std text functions that vstd gives no specification,
//! each behind a trusted wrapper with what the library believes of it, and
//! the reading of decimal numbers.
use vstd::prelude::*;

verus! {

/// The Unicode lowercase form of a text, as `str::to_lowercase` computes it.
pub uninterp spec fn lowercase_of(s: Seq<char>) -> Seq<char>;

/// Calls `str::to_lowercase`. The contract only names the result: it is
/// `lowercase_of` of the argument, a function of the argument alone (the
/// Unicode case tables are not stated here).
#[verifier::external_body]
pub(crate) fn to_lowercase(s: &str) -> (r: String)
    ensures
        r@ == lowercase_of(s@),
{
    s.to_lowercase()
}

/// Whether `c` has the Unicode property White_Space, the 25 characters
/// that `char::is_whitespace` accepts.
pub open spec fn is_white_space(c: char) -> bool {
    ||| ('\u{9}' <= c && c <= '\u{d}')
    ||| c == ' '
    ||| c == '\u{85}'
    ||| c == '\u{a0}'
    ||| c == '\u{1680}'
    ||| ('\u{2000}' <= c && c <= '\u{200a}')
    ||| c == '\u{2028}'
    ||| c == '\u{2029}'
    ||| c == '\u{202f}'
    ||| c == '\u{205f}'
    ||| c == '\u{3000}'
}

/// A text without its leading white space.
pub open spec fn trim_start(s: Seq<char>) -> Seq<char>
    decreases s.len(),
{
    if s.len() > 0 && is_white_space(s[0]) {
        trim_start(s.drop_first())
    } else {
        s
    }
}

/// A text without its trailing white space.
pub open spec fn trim_end(s: Seq<char>) -> Seq<char>
    decreases s.len(),
{
    if s.len() > 0 && is_white_space(s.last()) {
        trim_end(s.drop_last())
    } else {
        s
    }
}

/// A text without its leading and trailing white space.
pub open spec fn trimmed(s: Seq<char>) -> Seq<char> {
    trim_end(trim_start(s))
}

/// Calls `str::trim`, which std documents as removing the leading and
/// trailing characters that have the Unicode property White_Space.
#[verifier::external_body]
pub(crate) fn trim(s: &str) -> (r: &str)
    ensures
        r@ == trimmed(s@),
{
    s.trim()
}

/// Whether a text is empty or starts with an ASCII character, which fills
/// one byte: code that looks at the first byte alone of such a text reads
/// its first character.
pub open spec fn first_is_one_byte(s: Seq<char>) -> bool {
    s.len() == 0 || (s[0] as u32) < 128
}

/// Whether `c` is one of the ASCII digits `0` to `9`.
pub open spec fn is_ascii_digit(c: char) -> bool {
    '0' <= c && c <= '9'
}

/// The digits of a decimal numeral: the text without one leading `+`.
pub open spec fn numeral_digits(s: Seq<char>) -> Seq<char> {
    if s.len() > 0 && s[0] == '+' {
        s.drop_first()
    } else {
        s
    }
}

/// Whether `s` is an optional `+` followed by at least one ASCII digit.
pub open spec fn is_numeral(s: Seq<char>) -> bool {
    let d = numeral_digits(s);
    &&& d.len() > 0
    &&& forall|i: int| 0 <= i < d.len() ==> is_ascii_digit(#[trigger] d[i])
}

/// The value of a sequence of decimal digits, most significant first.
pub open spec fn decimal_value(d: Seq<char>) -> nat
    decreases d.len(),
{
    if d.len() == 0 {
        0
    } else {
        decimal_value(d.drop_last()) * 10 + ((d.last() as nat) - ('0' as nat)) as nat
    }
}

/// A prefix of a digit sequence has at most the value of the whole.
proof fn lemma_decimal_prefix(d: Seq<char>, k: int)
    requires
        0 <= k <= d.len(),
    ensures
        decimal_value(d.take(k)) <= decimal_value(d),
    decreases d.len(),
{
    if k < d.len() {
        assert(d.drop_last().take(k) =~= d.take(k));
        lemma_decimal_prefix(d.drop_last(), k);
    } else {
        assert(d.take(k) =~= d);
    }
}

/// Reading digits is positional: appending a digit `c` to a digit string
/// `d` multiplies the value of `d` by ten and adds the digit's value; so a
/// single digit reads as itself and a trailing `0` multiplies by ten.
pub proof fn lemma_decimal_append(d: Seq<char>, c: char)
    requires
        is_ascii_digit(c),
    ensures
        decimal_value(d.push(c)) == 10 * decimal_value(d) + ((c as nat) - ('0' as nat)),
        decimal_value(seq![c]) == (c as nat) - ('0' as nat),
{
    assert(d.push(c).drop_last() =~= d);
    assert(seq![c].drop_last() =~= Seq::<char>::empty());
    assert(decimal_value(Seq::<char>::empty()) == 0);
    assert(seq![c].last() == c);
}

/// A numeral is a `+` or a digit, followed by digits only, and a lone `+`
/// is none; a `+` in front changes neither whether a text is a numeral nor
/// its value; a text that starts with `-` is never a numeral.
pub proof fn lemma_numeral_shape(s: Seq<char>)
    ensures
        is_numeral(s) ==> s.len() > 0 && (s[0] == '+' || is_ascii_digit(s[0]))
            && forall|i: int| 1 <= i < s.len() ==> is_ascii_digit(#[trigger] s[i]),
        s.len() > 0 && s[0] == '-' ==> !is_numeral(s),
        !is_numeral(seq!['+']),
        s.len() > 0 && is_ascii_digit(s[0]) ==> (is_numeral(seq!['+'] + s) <==> is_numeral(s))
            && numeral_digits(seq!['+'] + s) == numeral_digits(s),
{
    if is_numeral(s) {
        let d = numeral_digits(s);
        if s[0] == '+' {
            assert forall|i: int| 1 <= i < s.len() implies is_ascii_digit(#[trigger] s[i]) by {
                assert(d[i - 1] == s[i]);
            }
        } else {
            assert forall|i: int| 1 <= i < s.len() implies is_ascii_digit(#[trigger] s[i]) by {
                assert(d[i] == s[i]);
            }
            assert(d[0] == s[0]);
        }
    }
    if s.len() > 0 && s[0] == '-' {
        assert(numeral_digits(s) == s);
        assert(!is_ascii_digit(numeral_digits(s)[0]));
    }
    assert(numeral_digits(seq!['+']) =~= Seq::<char>::empty());
    if s.len() > 0 && is_ascii_digit(s[0]) {
        assert((seq!['+'] + s).drop_first() =~= s);
    }
}

/// Leading white space comes off the front and nothing else does.
proof fn lemma_trim_start(s: Seq<char>)
    ensures
        trim_start(s).len() <= s.len(),
        trim_start(s) == s.subrange(s.len() - trim_start(s).len(), s.len() as int),
        forall|i: int| 0 <= i < s.len() - trim_start(s).len() ==> is_white_space(#[trigger] s[i]),
        trim_start(s).len() > 0 ==> !is_white_space(trim_start(s)[0]),
    decreases s.len(),
{
    if s.len() > 0 && is_white_space(s[0]) {
        lemma_trim_start(s.drop_first());
        let t = trim_start(s.drop_first());
        assert(s.drop_first().subrange(s.drop_first().len() - t.len(), s.drop_first().len() as int)
            =~= s.subrange(s.len() - t.len(), s.len() as int));
        assert forall|i: int| 0 <= i < s.len() - t.len() implies is_white_space(#[trigger] s[i]) by {
            if i > 0 {
                assert(s[i] == s.drop_first()[i - 1]);
            }
        }
    } else {
        assert(s.subrange(0, s.len() as int) =~= s);
    }
}

/// Trailing white space comes off the end and nothing else does.
proof fn lemma_trim_end(s: Seq<char>)
    ensures
        trim_end(s).len() <= s.len(),
        trim_end(s) == s.subrange(0, trim_end(s).len() as int),
        forall|i: int| trim_end(s).len() <= i < s.len() ==> is_white_space(#[trigger] s[i]),
        trim_end(s).len() > 0 ==> !is_white_space(trim_end(s).last()),
    decreases s.len(),
{
    if s.len() > 0 && is_white_space(s.last()) {
        lemma_trim_end(s.drop_last());
        let t = trim_end(s.drop_last());
        assert(s.drop_last().subrange(0, t.len() as int) =~= s.subrange(0, t.len() as int));
        assert forall|i: int| t.len() <= i < s.len() implies is_white_space(#[trigger] s[i]) by {
            if i < s.len() - 1 {
                assert(s[i] == s.drop_last()[i]);
            }
        }
    } else {
        assert(s.subrange(0, s.len() as int) =~= s);
    }
}

/// Trimming keeps a stretch of the text in one piece and in order, and
/// drops only white space before and after it; the stretch neither starts
/// nor ends with white space.
pub proof fn lemma_trimmed(s: Seq<char>)
    ensures
        exists|a: int| #![trigger s.subrange(a, a + trimmed(s).len())]
            0 <= a && a + trimmed(s).len() <= s.len()
            && trimmed(s) == s.subrange(a, a + trimmed(s).len())
            && (forall|i: int| 0 <= i < a ==> is_white_space(#[trigger] s[i]))
            && (forall|i: int| a + trimmed(s).len() <= i < s.len() ==> is_white_space(#[trigger] s[i])),
        trimmed(s).len() > 0 ==> !is_white_space(trimmed(s)[0]) && !is_white_space(trimmed(s).last()),
{
    lemma_trim_start(s);
    let u = trim_start(s);
    lemma_trim_end(u);
    let t = trim_end(u);
    let a = s.len() - u.len();
    assert(t =~= s.subrange(a, a + t.len()));
    assert forall|i: int| a + t.len() <= i < s.len() implies is_white_space(#[trigger] s[i]) by {
        assert(s[i] == u[i - a]);
    }
    if t.len() > 0 {
        assert(t[0] == u[0]);
    }
    assert(trimmed(s) == t);
    assert(0 <= a && a + t.len() <= s.len()
        && trimmed(s) == s.subrange(a, a + trimmed(s).len())
        && (forall|i: int| 0 <= i < a ==> is_white_space(#[trigger] s[i]))
        && (forall|i: int| a + trimmed(s).len() <= i < s.len() ==> is_white_space(#[trigger] s[i])));
}

/// Reads a number the way `str::parse::<usize>` does, which std documents
/// as: an optional `+` followed by one or more ASCII digits whose value fits
/// in a `usize`; anything else is refused.
pub fn parse_usize(s: &str) -> (r: Option<usize>)
    ensures
        match r {
            Some(n) => is_numeral(s@) && n as nat == decimal_value(numeral_digits(s@)),
            None => !(is_numeral(s@) && decimal_value(numeral_digits(s@)) <= usize::MAX),
        },
{
    let n = s.unicode_len();
    if n == 0 {
        return None;
    }
    let start: usize = if s.get_char(0) == '+' { 1 } else { 0 };
    let ghost d = numeral_digits(s@);
    assert(d =~= s@.subrange(start as int, n as int));
    if start == n {
        return None;
    }
    let mut value: usize = 0;
    let mut i: usize = start;
    assert(d.take(0) =~= Seq::<char>::empty());
    while i < n
        invariant
            n == s@.len(),
            start <= i <= n,
            d == s@.subrange(start as int, n as int),
            d == numeral_digits(s@),
            d.len() > 0,
            forall|j: int| 0 <= j < i - start ==> is_ascii_digit(#[trigger] d[j]),
            value as nat == decimal_value(d.take(i - start)),
        decreases n - i,
    {
        let c = s.get_char(i);
        assert(c == d[i - start]);
        if c < '0' || c > '9' {
            assert(!is_ascii_digit(d[i - start]));
            return None;
        }
        let digit = ((c as u32) - 48) as usize;
        let ghost k = i - start;
        proof {
            assert(d.take(k + 1).drop_last() =~= d.take(k));
            assert(d.take(k + 1).last() == c);
            assert(decimal_value(d.take(k + 1)) == decimal_value(d.take(k)) * 10 + digit);
        }
        match value.checked_mul(10) {
            Some(tens) => match tens.checked_add(digit) {
                Some(next) => {
                    value = next;
                },
                None => {
                    proof {
                        lemma_decimal_prefix(d, k + 1);
                    }
                    return None;
                },
            },
            None => {
                proof {
                    lemma_decimal_prefix(d, k + 1);
                }
                return None;
            },
        }
        i = i + 1;
    }
    assert(d.take(n - start) =~= d);
    Some(value)
}

} // verus!
