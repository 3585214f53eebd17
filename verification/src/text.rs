//! Small pieces of scene text: quoted strings, decimal integers and
//! separated lists, each with the sequence of characters it stands for.

use vstd::prelude::*;

verus! {

/// `String::push` appends the given character to the end of the string and
/// changes nothing else.
pub assume_specification[ std::string::String::push ](s: &mut std::string::String, ch: char)
    ensures
        final(s)@ == old(s)@.push(ch),
;

/// A string between double quotes. Nothing inside it is escaped.
pub open spec fn quoted(s: Seq<char>) -> Seq<char> {
    "\""@ + s + "\""@
}

/// The character that writes the digit `d`.
pub open spec fn digit_char(d: int) -> char
    recommends
        0 <= d < 10,
{
    if d == 0 {
        '0'
    } else if d == 1 {
        '1'
    } else if d == 2 {
        '2'
    } else if d == 3 {
        '3'
    } else if d == 4 {
        '4'
    } else if d == 5 {
        '5'
    } else if d == 6 {
        '6'
    } else if d == 7 {
        '7'
    } else if d == 8 {
        '8'
    } else {
        '9'
    }
}

/// A natural number in base ten, without sign or leading zeros.
pub open spec fn decimal_text(n: nat) -> Seq<char>
    decreases n,
{
    if n < 10 {
        seq![digit_char(n as int)]
    } else {
        decimal_text(n / 10).push(digit_char((n % 10) as int))
    }
}

/// The parts in order, with `sep` between each two neighbours.
pub open spec fn joined(parts: Seq<Seq<char>>, sep: Seq<char>) -> Seq<char>
    decreases parts.len(),
{
    if parts.len() == 0 {
        Seq::empty()
    } else if parts.len() == 1 {
        parts[0]
    } else {
        joined(parts.drop_last(), sep) + sep + parts.last()
    }
}

/// A list value: the items between square brackets, separated by a comma
/// and a space. An empty list is `[]`.
pub open spec fn list_text(items: Seq<Seq<char>>) -> Seq<char> {
    "["@ + joined(items, ", "@) + "]"@
}

/// Adding one more part to a joined text puts the separator before it,
/// unless it is the first part.
pub proof fn lemma_joined_push(parts: Seq<Seq<char>>, sep: Seq<char>, part: Seq<char>)
    ensures
        joined(parts.push(part), sep) == if parts.len() == 0 {
            part
        } else {
            joined(parts, sep) + sep + part
        },
{
    let longer = parts.push(part);
    assert(longer.drop_last() =~= parts);
    assert(longer.last() == part);
    if parts.len() == 0 {
        assert(longer[0] == part);
    }
}

/// The character for one decimal digit.
pub fn digit_to_char(d: u32) -> (c: char)
    requires
        d < 10,
    ensures
        c == digit_char(d as int),
{
    if d == 0 {
        '0'
    } else if d == 1 {
        '1'
    } else if d == 2 {
        '2'
    } else if d == 3 {
        '3'
    } else if d == 4 {
        '4'
    } else if d == 5 {
        '5'
    } else if d == 6 {
        '6'
    } else if d == 7 {
        '7'
    } else if d == 8 {
        '8'
    } else {
        '9'
    }
}

/// Appends `value` in base ten to `out`.
pub fn push_decimal(out: &mut String, value: u32)
    ensures
        final(out)@ == old(out)@ + decimal_text(value as nat),
{
    // Digits from the least significant upwards; the leading digit stays in `rest`.
    let mut low: Vec<char> = Vec::new();
    let mut rest: u32 = value;
    while rest >= 10
        invariant
            decimal_text(value as nat) == decimal_text(rest as nat) + low@.reverse(),
        decreases rest,
    {
        let c = digit_to_char(rest % 10);
        proof {
            let before = low@;
            assert(before.push(c).reverse() =~= seq![c] + before.reverse());
            assert(decimal_text(rest as nat) == decimal_text((rest / 10) as nat).push(c));
            assert(decimal_text((rest / 10) as nat).push(c) + before.reverse()
                =~= decimal_text((rest / 10) as nat) + (seq![c] + before.reverse()));
        }
        low.push(c);
        rest = rest / 10;
    }
    out.push(digit_to_char(rest));
    let mut k: usize = low.len();
    while k > 0
        invariant
            k <= low.len(),
            rest < 10,
            decimal_text(value as nat) == seq![digit_char(rest as int)] + low@.reverse(),
            out@ == old(out)@ + seq![digit_char(rest as int)] + low@.reverse().take(
                low.len() - k,
            ),
        decreases k,
    {
        k = k - 1;
        proof {
            let r = low@.reverse();
            let done = low.len() - k - 1;
            assert(r[done] == low@[k as int]);
            assert(r.take(done + 1) =~= r.take(done).push(r[done]));
        }
        out.push(low[k]);
    }
    proof {
        let r = low@.reverse();
        assert(r.take(low.len() as int) =~= r);
    }
}

/// A list without items is written as `[]`.
pub proof fn lemma_empty_list_text()
    ensures
        list_text(Seq::empty()) == "[]"@,
{
    reveal_strlit("[");
    reveal_strlit("]");
    reveal_strlit("[]");
    assert(list_text(Seq::empty()) =~= "[]"@);
}

} // verus!
