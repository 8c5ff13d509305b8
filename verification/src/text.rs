//! Text: comparing names and building readouts.

use vstd::prelude::*;

verus! {

/// Whether two texts are the same.
pub fn same_text(a: &str, b: &str) -> (r: bool)
    ensures
        r == (a@ == b@),
{
    a.to_owned() == b.to_owned()
}

/// Whether a text starts with another.
pub fn starts_with(text: &str, prefix: &str) -> (r: bool)
    ensures
        r == prefix@.is_prefix_of(text@),
{
    let n: usize = prefix.unicode_len();
    if text.unicode_len() < n {
        false
    } else {
        same_text(text.substring_char(0, n), prefix)
    }
}

/// A text without the occurrences of a fragment, taken from the left.
pub open spec fn removed(text: Seq<char>, fragment: Seq<char>) -> Seq<char>
    decreases text.len(),
{
    if text.len() == 0 {
        seq![]
    } else if fragment.len() > 0 && fragment.is_prefix_of(text) {
        removed(text.skip(fragment.len() as int), fragment)
    } else {
        seq![text[0]] + removed(text.skip(1), fragment)
    }
}

/// Take a fragment out of a text, wherever it occurs.
pub fn without(text: &str, fragment: &str) -> (r: String)
    ensures
        r@ == removed(text@, fragment@),
{
    let length: usize = text.unicode_len();
    let width: usize = fragment.unicode_len();
    let mut kept: String = String::new();
    let mut i: usize = 0;
    assert(text@.skip(0) =~= text@);
    while i < length
        invariant
            i <= length,
            length == text@.len(),
            width == fragment@.len(),
            kept@ + removed(text@.skip(i as int), fragment@) == removed(text@, fragment@),
        decreases length - i,
    {
        let rest = text.substring_char(i, length);
        assert(rest@ =~= text@.skip(i as int));
        if width > 0 && starts_with(rest, fragment) {
            assert(rest@.skip(width as int) =~= text@.skip(i + width));
            i = i + width;
        } else {
            assert(rest@.skip(1) =~= text@.skip(i + 1));
            let ghost before = kept@;
            let piece = text.substring_char(i, i + 1);
            kept.append(piece);
            assert(piece@ =~= seq![rest@[0]]);
            assert(kept@ + removed(text@.skip(i + 1), fragment@) =~= before + (seq![rest@[0]]
                + removed(text@.skip(i + 1), fragment@)));
            i = i + 1;
        }
    }
    assert(text@.skip(i as int) =~= seq![]);
    assert(kept@ =~= kept@ + removed(text@.skip(i as int), fragment@));
    kept
}

/// The texts one after another, with a separator between neighbours.
pub open spec fn joined(parts: Seq<Seq<char>>, separator: Seq<char>) -> Seq<char>
    decreases parts.len(),
{
    if parts.len() == 0 {
        seq![]
    } else if parts.len() == 1 {
        parts[0]
    } else {
        joined(parts.drop_last(), separator) + separator + parts.last()
    }
}

/// The views of texts.
pub open spec fn views(parts: Seq<String>) -> Seq<Seq<char>> {
    parts.map_values(|p: String| p@)
}

/// Join texts with a separator.
pub fn join(parts: &Vec<String>, separator: &str) -> (r: String)
    ensures
        r@ == joined(views(parts@), separator@),
{
    let mut text: String = String::new();
    let mut i: usize = 0;
    while i < parts.len()
        invariant
            i <= parts.len(),
            text@ == joined(views(parts@).take(i as int), separator@),
        decreases parts.len() - i,
    {
        let ghost more = views(parts@).take(i + 1);
        assert(more.drop_last() =~= views(parts@).take(i as int));
        if i > 0 {
            text.append(separator);
        }
        text.append(parts[i].as_str());
        assert(text@ =~= joined(more, separator@));
        i = i + 1;
    }
    assert(views(parts@).take(i as int) =~= views(parts@));
    text
}

/// The numeral of a digit.
pub open spec fn numeral(digit: nat) -> Seq<char> {
    if digit == 0 {
        "0"@
    } else if digit == 1 {
        "1"@
    } else if digit == 2 {
        "2"@
    } else if digit == 3 {
        "3"@
    } else if digit == 4 {
        "4"@
    } else if digit == 5 {
        "5"@
    } else if digit == 6 {
        "6"@
    } else if digit == 7 {
        "7"@
    } else if digit == 8 {
        "8"@
    } else {
        "9"@
    }
}

fn digit_text(digit: u64) -> (r: &'static str)
    requires
        digit < 10,
    ensures
        r@ == numeral(digit as nat),
{
    if digit == 0 {
        "0"
    } else if digit == 1 {
        "1"
    } else if digit == 2 {
        "2"
    } else if digit == 3 {
        "3"
    } else if digit == 4 {
        "4"
    } else if digit == 5 {
        "5"
    } else if digit == 6 {
        "6"
    } else if digit == 7 {
        "7"
    } else if digit == 8 {
        "8"
    } else {
        "9"
    }
}

/// A whole number in decimal.
pub open spec fn decimal(n: nat) -> Seq<char>
    decreases n,
{
    if n < 10 {
        numeral(n)
    } else {
        decimal(n / 10) + numeral(n % 10)
    }
}

/// Write a whole number in decimal.
pub fn decimal_text(n: u64) -> (r: String)
    ensures
        r@ == decimal(n as nat),
    decreases n,
{
    if n < 10 {
        digit_text(n).to_owned()
    } else {
        decimal_text(n / 10).concat(digit_text(n % 10))
    }
}

/// A whole number in decimal, with a minus sign where it is negative.
pub open spec fn signed_decimal(n: int) -> Seq<char> {
    if n < 0 {
        "-"@ + decimal((-n) as nat)
    } else {
        decimal(n as nat)
    }
}

/// Write a whole number in decimal, with its sign.
pub fn signed_decimal_text(n: i32) -> (r: String)
    ensures
        r@ == signed_decimal(n as int),
{
    if n < 0 {
        let magnitude: u64 = (-(n as i64)) as u64;
        "-".to_owned().concat(decimal_text(magnitude).as_str())
    } else {
        decimal_text(n as u64)
    }
}

/// The fragment goes wherever it stands at the front, and any other first character stays.
pub proof fn law_fragment_goes_and_the_rest_stays(rest: Seq<char>, fragment: Seq<char>, c: char)
    ensures
        fragment.len() > 0 ==> removed(fragment + rest, fragment) == removed(rest, fragment),
        !fragment.is_prefix_of(seq![c] + rest) ==> removed(seq![c] + rest, fragment) == seq![c]
            + removed(rest, fragment),
        removed(seq![], fragment) == Seq::<char>::empty(),
{
    if fragment.len() > 0 {
        let text = fragment + rest;
        assert(fragment.is_prefix_of(text)) by {
            assert(text.subrange(0, fragment.len() as int) =~= fragment);
        }
        assert(text.skip(fragment.len() as int) =~= rest);
    }
    assert((seq![c] + rest).skip(1) =~= rest);
}

/// A text in which the fragment does not occur is left as it is.
pub proof fn law_text_without_the_fragment_is_kept(text: Seq<char>, fragment: Seq<char>)
    requires
        fragment.len() == 0 || forall|i: int|
            0 <= i <= text.len() ==> !fragment.is_prefix_of(#[trigger] text.skip(i)),
    ensures
        removed(text, fragment) == text,
    decreases text.len(),
{
    if text.len() > 0 {
        let rest = text.skip(1);
        assert(text.skip(0) =~= text);
        if fragment.len() > 0 {
            assert(!fragment.is_prefix_of(text.skip(0)));
        }
        assert forall|i: int| fragment.len() > 0 && 0 <= i <= rest.len() implies !fragment.is_prefix_of(
            #[trigger] rest.skip(i),
        ) by {
            assert(rest.skip(i) =~= text.skip(i + 1));
        }
        law_text_without_the_fragment_is_kept(rest, fragment);
        assert(seq![text[0]] + rest =~= text);
    }
}

/// Joining puts the separator between neighbours and nowhere else.
pub proof fn law_separator_stands_between(
    parts: Seq<Seq<char>>,
    part: Seq<char>,
    separator: Seq<char>,
)
    ensures
        joined(seq![], separator) == Seq::<char>::empty(),
        joined(seq![part], separator) == part,
        parts.len() > 0 ==> joined(parts.push(part), separator) == joined(parts, separator)
            + separator + part,
{
    assert(parts.push(part).drop_last() =~= parts);
}

/// The value of a numeral in decimal.
pub open spec fn read_decimal(text: Seq<char>) -> int
    decreases text.len(),
{
    if text.len() == 0 {
        0
    } else {
        10 * read_decimal(text.drop_last()) + (text.last() as int - 48)
    }
}

/// A digit's numeral is one character, and it reads as the digit.
proof fn lemma_numeral(digit: nat)
    requires
        digit < 10,
    ensures
        numeral(digit).len() == 1,
        numeral(digit)[0] as int == digit + 48,
{
    reveal_strlit("0");
    reveal_strlit("1");
    reveal_strlit("2");
    reveal_strlit("3");
    reveal_strlit("4");
    reveal_strlit("5");
    reveal_strlit("6");
    reveal_strlit("7");
    reveal_strlit("8");
    reveal_strlit("9");
}

/// A number written in decimal reads back as itself, in decimal digits alone, and none of them is a
/// leading zero.
pub proof fn law_decimal_reads_back(n: nat)
    ensures
        read_decimal(decimal(n)) == n,
        decimal(n).len() >= 1,
        forall|i: int| 0 <= i < decimal(n).len() ==> 48 <= (#[trigger] decimal(n)[i]) as int <= 57,
        n > 0 ==> decimal(n)[0] as int != 48,
    decreases n,
{
    if n < 10 {
        lemma_numeral(n);
        assert(decimal(n).drop_last() =~= seq![]);
        assert(read_decimal(decimal(n).drop_last()) == 0);
    } else {
        law_decimal_reads_back(n / 10);
        lemma_numeral(n % 10);
        let text = decimal(n);
        assert(text.drop_last() =~= decimal(n / 10));
        assert(text.last() == numeral(n % 10)[0]);
        assert(text[0] == decimal(n / 10)[0]);
    }
}

/// A negative number is its opposite behind a minus sign; any other is written without a sign.
pub proof fn law_minus_sign_leads(n: int)
    ensures
        n >= 0 ==> signed_decimal(n) == decimal(n as nat),
        n < 0 ==> signed_decimal(n) == seq!['-'] + decimal((-n) as nat),
{
    reveal_strlit("-");
    assert("-"@ =~= seq!['-']);
}

} // verus!
