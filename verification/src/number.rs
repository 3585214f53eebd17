//! Real numbers as they are written in scene text.
//!
//! A number is kept as its numeral: an optional minus sign, then either
//! decimal digits with an optional fraction, or `inf`; or the word `NaN`.
//! There is no exponent form.

use vstd::prelude::*;

verus! {

/// One of the ten decimal digits.
pub open spec fn is_digit(c: char) -> bool {
    '0' <= c && c <= '9'
}

/// One digit or more, and nothing else.
pub open spec fn all_digits(s: Seq<char>) -> bool {
    s.len() > 0 && forall|i: int| 0 <= i < s.len() ==> is_digit(#[trigger] s[i])
}

/// Digits, or digits on both sides of one point.
pub open spec fn is_decimal(s: Seq<char>) -> bool {
    all_digits(s) || exists|dot: int|
        0 < dot < s.len() - 1 && #[trigger] s[dot] == '.' && all_digits(s.take(dot)) && all_digits(
            s.skip(dot + 1),
        )
}

/// A numeral without a sign: a decimal, or `inf`.
pub open spec fn is_magnitude(s: Seq<char>) -> bool {
    s == seq!['i', 'n', 'f'] || is_decimal(s)
}

/// A numeral: `NaN`, or a magnitude with or without a minus sign before it.
pub open spec fn is_numeral(s: Seq<char>) -> bool {
    ||| s == seq!['N', 'a', 'N']
    ||| is_magnitude(s)
    ||| (s.len() > 0 && s[0] == '-' && is_magnitude(s.skip(1)))
}

/// A character that can occur in a numeral.
pub open spec fn is_numeral_char(c: char) -> bool {
    is_digit(c) || c == '-' || c == '.' || c == 'N' || c == 'a' || c == 'i' || c == 'n' || c == 'f'
}

/// A numeral is not empty and is made of digits, the minus sign, the point
/// and the letters of `NaN` and `inf` only.
pub proof fn lemma_numeral_chars(s: Seq<char>)
    requires
        is_numeral(s),
    ensures
        s.len() > 0,
        forall|i: int| 0 <= i < s.len() ==> is_numeral_char(#[trigger] s[i]),
{
    assert forall|i: int| 0 <= i < s.len() implies is_numeral_char(#[trigger] s[i]) by {
        if s == seq!['N', 'a', 'N'] {
        } else if is_magnitude(s) {
            lemma_magnitude_chars(s);
        } else {
            lemma_magnitude_chars(s.skip(1));
            if i > 0 {
                assert(s[i] == s.skip(1)[i - 1]);
            }
        }
    }
}

proof fn lemma_magnitude_chars(s: Seq<char>)
    requires
        is_magnitude(s),
    ensures
        s.len() > 0,
        forall|i: int| 0 <= i < s.len() ==> is_numeral_char(#[trigger] s[i]),
{
    if s == seq!['i', 'n', 'f'] {
    } else if all_digits(s) {
    } else {
        let dot = choose|dot: int|
            0 < dot < s.len() - 1 && #[trigger] s[dot] == '.' && all_digits(s.take(dot))
                && all_digits(s.skip(dot + 1));
        assert forall|i: int| 0 <= i < s.len() implies is_numeral_char(#[trigger] s[i]) by {
            if i < dot {
                assert(s[i] == s.take(dot)[i]);
            } else if i > dot {
                assert(s[i] == s.skip(dot + 1)[i - dot - 1]);
            }
        }
    }
}

/// The characters of a string, in order.
pub fn chars_of(text: &str) -> (chars: Vec<char>)
    ensures
        chars@ == text@,
{
    let mut chars: Vec<char> = Vec::new();
    for c in it: text.chars()
        invariant
            it.seq() == text@,
            chars@ == text@.take(it.index() as int),
    {
        chars.push(c);
        assert(text@.take(it.index() + 1) =~= text@.take(it.index() as int).push(c));
    }
    assert(text@.take(text@.len() as int) =~= text@);
    chars
}

fn digit_at(s: &Vec<char>, at: usize) -> (yes: bool)
    requires
        at < s.len(),
    ensures
        yes == is_digit(s[at as int]),
{
    let c = s[at];
    '0' <= c && c <= '9'
}

/// The end of the run of digits that starts at `from`.
fn digits_end(s: &Vec<char>, from: usize) -> (end: usize)
    requires
        from <= s.len(),
    ensures
        from <= end <= s.len(),
        forall|i: int| from <= i < end ==> is_digit(#[trigger] s[i]),
        end < s.len() ==> !is_digit(s[end as int]),
{
    let mut end = from;
    while end < s.len() && digit_at(s, end)
        invariant
            from <= end <= s.len(),
            forall|i: int| from <= i < end ==> is_digit(#[trigger] s[i]),
        decreases s.len() - end,
    {
        end = end + 1;
    }
    end
}

/// Whether what stands in `s` from `from` on is a magnitude.
fn magnitude_from(s: &Vec<char>, from: usize) -> (yes: bool)
    requires
        from <= s.len(),
    ensures
        yes == is_magnitude(s@.skip(from as int)),
{
    let ghost t = s@.skip(from as int);
    let len = s.len();
    if len - from == 3 && s[from] == 'i' && s[from + 1] == 'n' && s[from + 2] == 'f' {
        assert(t =~= seq!['i', 'n', 'f']);
        return true;
    }
    assert(t != seq!['i', 'n', 'f']) by {
        let word = seq!['i', 'n', 'f'];
        if t == word {
            assert(t.len() == 3);
            assert(t[0] == word[0] && t[1] == word[1] && t[2] == word[2]);
            assert(t[0] == s[from as int] && t[1] == s[from + 1] && t[2] == s[from + 2]);
        }
    }
    let whole = digits_end(s, from);
    let ghost w = whole - from;
    assert(forall|i: int| 0 <= i < w ==> is_digit(#[trigger] t[i])) by {
        assert forall|i: int| 0 <= i < w implies is_digit(#[trigger] t[i]) by {
            assert(t[i] == s[from + i]);
        }
    }
    if whole == from {
        // No digit to begin with.
        assert(!is_decimal(t)) by {
            if t.len() > 0 {
                assert(t[0] == s[from as int]);
                assert(!is_digit(t[0]));
                assert forall|dot: int|
                    0 < dot < t.len() - 1 && #[trigger] t[dot] == '.' implies !all_digits(
                    t.take(dot),
                ) by {
                    assert(t.take(dot)[0] == t[0]);
                }
            }
        }
        return false;
    }
    if whole == len {
        assert(all_digits(t));
        return true;
    }
    assert(t[w] == s[whole as int]);
    assert(!all_digits(t));
    if s[whole] != '.' {
        assert(!is_decimal(t)) by {
            assert forall|dot: int|
                0 < dot < t.len() - 1 && #[trigger] t[dot] == '.' implies !all_digits(
                t.take(dot),
            ) by {
                if dot < w {
                    assert(is_digit(t[dot]));
                } else {
                    assert(t.take(dot)[w] == t[w]);
                }
            }
        }
        return false;
    }
    let part = digits_end(s, whole + 1);
    let ghost frac = t.skip(w + 1);
    assert(forall|i: int| 0 <= i < part - whole - 1 ==> is_digit(#[trigger] frac[i])) by {
        assert forall|i: int| 0 <= i < part - whole - 1 implies is_digit(#[trigger] frac[i]) by {
            assert(frac[i] == s[whole + 1 + i]);
        }
    }
    if part > whole + 1 && part == len {
        assert(all_digits(t.take(w)));
        assert(all_digits(frac));
        assert(is_decimal(t));
        true
    } else {
        assert(!all_digits(frac)) by {
            if part < len {
                assert(frac[part - whole - 1] == s[part as int]);
            }
        }
        assert(!is_decimal(t)) by {
            assert forall|dot: int|
                0 < dot < t.len() - 1 && #[trigger] t[dot] == '.' && all_digits(
                    t.take(dot),
                ) implies !all_digits(t.skip(dot + 1)) by {
                if dot < w {
                    assert(is_digit(t[dot]));
                } else if dot > w {
                    assert(t.take(dot)[w] == t[w]);
                }
            }
        }
        false
    }
}

/// Whether the characters are a numeral.
pub fn is_numeral_text(s: &Vec<char>) -> (yes: bool)
    ensures
        yes == is_numeral(s@),
{
    if s.len() == 0 {
        assert(!is_decimal(s@));
        return false;
    }
    if s[0] == '-' {
        assert(!is_digit('-'));
        assert(!is_magnitude(s@)) by {
            assert(s@[0] == '-');
            if all_digits(s@) {
                assert(is_digit(s@[0]));
            }
            assert forall|dot: int|
                0 < dot < s@.len() - 1 && #[trigger] s@[dot] == '.' implies !all_digits(
                s@.take(dot),
            ) by {
                assert(s@.take(dot)[0] == s@[0]);
            }
        }
        return magnitude_from(s, 1);
    }
    if s.len() == 3 && s[0] == 'N' && s[1] == 'a' && s[2] == 'N' {
        assert(s@ =~= seq!['N', 'a', 'N']);
        return true;
    }
    assert(s@ != seq!['N', 'a', 'N']) by {
        let word = seq!['N', 'a', 'N'];
        if s@ == word {
            assert(s@.len() == 3);
            assert(s@[0] == word[0] && s@[1] == word[1] && s@[2] == word[2]);
        }
    }
    assert(s@.skip(0) =~= s@);
    magnitude_from(s, 0)
}

/// A real number, kept as the numeral that stands for it in scene text.
#[derive(Debug)]
pub struct Number {
    text: String,
}

impl View for Number {
    type V = Seq<char>;

    /// The numeral of the number.
    closed spec fn view(&self) -> Seq<char> {
        if is_numeral(self.text@) {
            self.text@
        } else {
            seq!['0']
        }
    }
}

/// What a number holds is a numeral.
pub proof fn lemma_number_view(number: Number)
    ensures
        is_numeral(number@),
{
    if !is_numeral(number.text@) {
        assert(all_digits(seq!['0']));
    }
}

impl Clone for Number {
    fn clone(&self) -> (copy: Self)
        ensures
            copy@ == self@,
    {
        proof {
            use_type_invariant(self);
        }
        Number { text: self.text.clone() }
    }
}

impl Number {
    #[verifier::type_invariant]
    spec fn well_formed(&self) -> bool {
        is_numeral(self.text@)
    }

    /// The number that `text` writes, if `text` is a numeral.
    pub fn parse(text: &str) -> (parsed: Option<Number>)
        ensures
            parsed is Some <==> is_numeral(text@),
            parsed matches Some(number) ==> number@ == text@,
    {
        let chars = chars_of(text);
        if is_numeral_text(&chars) {
            Some(Number { text: text.to_owned() })
        } else {
            None
        }
    }

    /// The numeral of this number.
    pub fn as_str(&self) -> (text: &str)
        ensures
            text@ == self@,
            is_numeral(text@),
    {
        proof {
            use_type_invariant(self);
        }
        self.text.as_str()
    }
}

} // verus!
