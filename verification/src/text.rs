//! Text handling shared by the word list readers and the game messages:
//! splitting a line at a separator, trimming white space, and writing numbers.
use vstd::prelude::*;

verus! {

/// The fields of `s` between occurrences of `sep`, in order. Like `str::split`
/// with a single character, it yields one more field than `s` holds separators,
/// and empty fields where two separators meet or `s` starts or ends with one.
pub open spec fn split_fields(s: Seq<char>, sep: char) -> Seq<Seq<char>>
    decreases s.len(),
{
    if s.len() == 0 {
        seq![Seq::<char>::empty()]
    } else {
        let fields = split_fields(s.drop_last(), sep);
        if s.last() == sep {
            fields.push(Seq::<char>::empty())
        } else {
            fields.update(fields.len() - 1, fields.last().push(s.last()))
        }
    }
}

/// Text without the separator is one field.
pub proof fn lemma_split_without_sep(s: Seq<char>, sep: char)
    requires
        !s.contains(sep),
    ensures
        split_fields(s, sep) == seq![s],
    decreases s.len(),
{
    if s.len() > 0 {
        assert(!s.drop_last().contains(sep)) by {
            if s.drop_last().contains(sep) {
                let i = choose|i: int| 0 <= i < s.drop_last().len() && s.drop_last()[i] == sep;
                assert(s[i] == sep);
            }
        }
        lemma_split_without_sep(s.drop_last(), sep);
        assert(s.last() != sep) by {
            assert(s[s.len() - 1] == s.last());
        }
        assert(s.drop_last().push(s.last()) =~= s);
        assert(split_fields(s, sep) =~= seq![s]);
    } else {
        assert(s =~= Seq::<char>::empty());
    }
}

/// Two texts without the separator, joined by it, split back into the two.
pub proof fn lemma_split_joined(a: Seq<char>, sep: char, b: Seq<char>)
    requires
        !a.contains(sep),
        !b.contains(sep),
    ensures
        split_fields(a.push(sep) + b, sep) == seq![a, b],
    decreases b.len(),
{
    let s = a.push(sep) + b;
    if b.len() == 0 {
        assert(s =~= a.push(sep));
        assert(s.drop_last() =~= a);
        lemma_split_without_sep(a, sep);
        assert(s.last() == sep);
        assert(b =~= Seq::<char>::empty());
        assert(split_fields(s, sep) == split_fields(a, sep).push(Seq::<char>::empty()));
        assert(split_fields(s, sep) =~= seq![a, b]);
    } else {
        let c = b.last();
        assert(!b.drop_last().contains(sep)) by {
            if b.drop_last().contains(sep) {
                let i = choose|i: int| 0 <= i < b.drop_last().len() && b.drop_last()[i] == sep;
                assert(b[i] == sep);
            }
        }
        assert(c != sep) by {
            assert(b[b.len() - 1] == c);
        }
        lemma_split_joined(a, sep, b.drop_last());
        assert(s.drop_last() =~= a.push(sep) + b.drop_last());
        assert(s.last() == c);
        assert(b.drop_last().push(c) =~= b);
        assert(split_fields(s, sep) =~= seq![a, b]);
    }
}

/// Splits `s` at every occurrence of `sep`.
pub fn split_on(s: &str, sep: char) -> (fields: Vec<String>)
    ensures
        fields@.map_values(|f: String| f@) == split_fields(s@, sep),
{
    let n = s.unicode_len();
    let mut fields: Vec<String> = Vec::new();
    let mut start: usize = 0;
    let mut i: usize = 0;
    assert(s@.take(0) =~= Seq::<char>::empty());
    assert(fields@.map_values(|f: String| f@).push(s@.subrange(0, 0)) =~= seq![Seq::<char>::empty()]);
    while i < n
        invariant
            n == s@.len(),
            start <= i <= n,
            fields@.map_values(|f: String| f@).push(s@.subrange(start as int, i as int))
                == split_fields(s@.take(i as int), sep),
        decreases n - i,
    {
        let c = s.get_char(i);
        let ghost before = fields@.map_values(|f: String| f@);
        let ghost prev = split_fields(s@.take(i as int), sep);
        proof {
            assert(s@.take(i + 1).drop_last() =~= s@.take(i as int));
            assert(s@.take(i + 1).last() == c);
        }
        if c == sep {
            let piece = s.substring_char(start, i);
            fields.push(piece.to_owned());
            start = i + 1;
            assert(fields@.map_values(|f: String| f@) =~= before.push(piece@));
            assert(split_fields(s@.take(i + 1), sep) == prev.push(Seq::<char>::empty()));
            assert(s@.subrange(start as int, i + 1) =~= Seq::<char>::empty());
            assert(fields@.map_values(|f: String| f@).push(s@.subrange(start as int, i + 1))
                =~= split_fields(s@.take(i + 1), sep));
        } else {
            assert(s@.subrange(start as int, i + 1) =~= s@.subrange(start as int, i as int).push(c));
            assert(split_fields(s@.take(i + 1), sep) == prev.update(prev.len() - 1, prev.last().push(c)));
            assert(fields@.map_values(|f: String| f@).push(s@.subrange(start as int, i + 1))
                =~= split_fields(s@.take(i + 1), sep));
        }
        i = i + 1;
    }
    let piece = s.substring_char(start, n);
    let ghost before = fields@.map_values(|f: String| f@);
    fields.push(piece.to_owned());
    assert(s@.take(n as int) =~= s@);
    assert(fields@.map_values(|f: String| f@) =~= before.push(piece@));
    fields
}

/// Whether `c` has the Unicode White_Space property (PropList.txt): the
/// controls U+0009 to U+000D, the space, U+0085, the no-break space U+00A0,
/// U+1680, the spaces U+2000 to U+200A, the line and paragraph separators
/// U+2028 and U+2029, U+202F, U+205F and the ideographic space U+3000.
pub open spec fn white_space(c: char) -> bool {
    let n = c as int;
    ||| 0x9 <= n <= 0xd
    ||| n == 0x20
    ||| n == 0x85
    ||| n == 0xa0
    ||| n == 0x1680
    ||| 0x2000 <= n <= 0x200a
    ||| n == 0x2028
    ||| n == 0x2029
    ||| n == 0x202f
    ||| n == 0x205f
    ||| n == 0x3000
}

/// Calls `char::is_whitespace`, which std documents as true exactly for the
/// characters with Unicode's White_Space property, listed in `white_space`.
#[verifier::external_body]
fn is_white_space(c: char) -> (b: bool)
    ensures
        b == white_space(c),
{
    c.is_whitespace()
}

/// `s` without its leading white space.
pub open spec fn trim_start(s: Seq<char>) -> Seq<char>
    decreases s.len(),
{
    if s.len() > 0 && white_space(s[0]) {
        trim_start(s.drop_first())
    } else {
        s
    }
}

/// `s` without its trailing white space.
pub open spec fn trim_end(s: Seq<char>) -> Seq<char>
    decreases s.len(),
{
    if s.len() > 0 && white_space(s.last()) {
        trim_end(s.drop_last())
    } else {
        s
    }
}

/// `s` without leading and trailing white space, as `str::trim` gives it.
pub open spec fn trimmed(s: Seq<char>) -> Seq<char> {
    trim_end(trim_start(s))
}

/// Removes the leading and trailing white space of `s`.
pub fn trim(s: &str) -> (t: String)
    ensures
        t@ == trimmed(s@),
{
    let n = s.unicode_len();
    let mut i: usize = 0;
    assert(s@.skip(0) =~= s@);
    while i < n && is_white_space(s.get_char(i))
        invariant
            n == s@.len(),
            i <= n,
            trim_start(s@) == trim_start(s@.skip(i as int)),
        decreases n - i,
    {
        assert(s@.skip(i as int).drop_first() =~= s@.skip(i + 1));
        i = i + 1;
    }
    assert(s@.skip(i as int) =~= s@.subrange(i as int, n as int));
    let mut j: usize = n;
    while j > i && is_white_space(s.get_char(j - 1))
        invariant
            n == s@.len(),
            i <= j <= n,
            trim_start(s@) == s@.subrange(i as int, n as int),
            trim_end(s@.subrange(i as int, n as int)) == trim_end(s@.subrange(i as int, j as int)),
        decreases j - i,
    {
        assert(s@.subrange(i as int, j as int).drop_last() =~= s@.subrange(i as int, j - 1));
        j = j - 1;
    }
    let piece = s.substring_char(i, j);
    piece.to_owned()
}

/// The character of the decimal digit `d`.
pub open spec fn digit(d: int) -> char {
    (48 + d) as char
}

/// The decimal digits of `n`, most significant first, without leading zeros.
pub open spec fn decimal_digits(n: nat) -> Seq<char>
    decreases n,
{
    if n < 10 {
        seq![digit(n as int)]
    } else {
        decimal_digits(n / 10).push(digit((n % 10) as int))
    }
}

/// `n` written in decimal, with a leading `-` when it is negative, as `{}` formats an integer.
pub open spec fn decimal(n: int) -> Seq<char> {
    if n < 0 {
        seq!['-'] + decimal_digits((-n) as nat)
    } else {
        decimal_digits(n as nat)
    }
}

fn digit_text(d: u32) -> (s: &'static str)
    requires
        d < 10,
    ensures
        s@ == seq![digit(d as int)],
{
    proof {
        reveal_strlit("0");
        reveal_strlit("1");
        reveal_strlit("2");
        reveal_strlit("3");
        reveal_strlit("4");
        reveal_strlit("5");
        reveal_strlit("6");
        reveal_strlit("7");
        reveal_strlit("8");
        reveal_strlit("9");
    }
    match d {
        0 => "0",
        1 => "1",
        2 => "2",
        3 => "3",
        4 => "4",
        5 => "5",
        6 => "6",
        7 => "7",
        8 => "8",
        _ => "9",
    }
}

fn append_digits(out: &mut String, n: u32)
    ensures
        final(out)@ == old(out)@ + decimal_digits(n as nat),
    decreases n,
{
    if n >= 10 {
        append_digits(out, n / 10);
    }
    out.append(digit_text(n % 10));
    assert(old(out)@ + decimal_digits(n as nat) =~= old(out)@ + (if n >= 10 { decimal_digits((n / 10) as nat) } else { Seq::<char>::empty() }) + seq![digit((n % 10) as int)]);
}

/// Writes `n` in decimal.
pub fn decimal_text(n: i16) -> (s: String)
    ensures
        s@ == decimal(n as int),
{
    let mut s = String::new();
    if n < 0 {
        proof {
            reveal_strlit("-");
        }
        s.append("-");
        let magnitude: u32 = (0i32 - n as i32) as u32;
        append_digits(&mut s, magnitude);
    } else {
        append_digits(&mut s, n as u32);
    }
    assert(s@ =~= decimal(n as int));
    s
}

/// Fields written out with `sep` between each two of them.
pub open spec fn joined_fields(fields: Seq<Seq<char>>, sep: char) -> Seq<char>
    decreases fields.len(),
{
    if fields.len() == 0 {
        Seq::empty()
    } else if fields.len() == 1 {
        fields[0]
    } else {
        joined_fields(fields.drop_last(), sep).push(sep) + fields.last()
    }
}

/// A separator followed by text without one adds that text as a last field.
pub proof fn lemma_split_append(a: Seq<char>, sep: char, b: Seq<char>)
    requires
        !b.contains(sep),
    ensures
        split_fields(a.push(sep) + b, sep) == split_fields(a, sep).push(b),
    decreases b.len(),
{
    let s = a.push(sep) + b;
    if b.len() == 0 {
        assert(s =~= a.push(sep));
        assert(s.drop_last() =~= a);
        assert(s.last() == sep);
        assert(b =~= Seq::<char>::empty());
    } else {
        let c = b.last();
        assert(!b.drop_last().contains(sep)) by {
            if b.drop_last().contains(sep) {
                let i = choose|i: int| 0 <= i < b.drop_last().len() && b.drop_last()[i] == sep;
                assert(b[i] == sep);
            }
        }
        assert(c != sep) by {
            assert(b[b.len() - 1] == c);
        }
        lemma_split_append(a, sep, b.drop_last());
        assert(s.drop_last() =~= a.push(sep) + b.drop_last());
        assert(s.last() == c);
        assert(b.drop_last().push(c) =~= b);
        assert(split_fields(s, sep) =~= split_fields(a, sep).push(b));
    }
}

/// Splitting undoes joining: fields without the separator, joined by it,
/// split back into exactly those fields, as many as there were.
pub proof fn lemma_split_joined_fields(fields: Seq<Seq<char>>, sep: char)
    requires
        fields.len() >= 1,
        forall|i: int| 0 <= i < fields.len() ==> !(#[trigger] fields[i]).contains(sep),
    ensures
        split_fields(joined_fields(fields, sep), sep) == fields,
    decreases fields.len(),
{
    if fields.len() == 1 {
        lemma_split_without_sep(fields[0], sep);
        assert(seq![fields[0]] =~= fields);
    } else {
        let front = fields.drop_last();
        assert forall|i: int| 0 <= i < front.len() implies !(#[trigger] front[i]).contains(sep) by {
            assert(front[i] == fields[i]);
        }
        lemma_split_joined_fields(front, sep);
        assert(!fields[fields.len() - 1].contains(sep));
        lemma_split_append(joined_fields(front, sep), sep, fields.last());
        assert(front.push(fields.last()) =~= fields);
    }
}

/// The value of a numeral read digit by digit in base ten.
pub open spec fn numeral_value(s: Seq<char>) -> int
    decreases s.len(),
{
    if s.len() == 0 {
        0
    } else {
        numeral_value(s.drop_last()) * 10 + (s.last() as int - 48)
    }
}

/// Whether `c` is one of the ASCII digits '0' to '9'.
pub open spec fn is_ascii_digit(c: char) -> bool {
    48 <= c as int <= 57
}

/// The decimal digits of `n` are ASCII digits without a leading zero (but for
/// zero itself), and read back as `n`.
pub proof fn lemma_decimal_digits_read_back(n: nat)
    ensures
        decimal_digits(n).len() >= 1,
        forall|i: int| 0 <= i < decimal_digits(n).len() ==> is_ascii_digit(#[trigger] decimal_digits(n)[i]),
        n > 0 ==> decimal_digits(n)[0] != '0',
        numeral_value(decimal_digits(n)) == n,
    decreases n,
{
    let s = decimal_digits(n);
    if n < 10 {
        assert(s == seq![digit(n as int)]);
        assert(s.drop_last() =~= Seq::<char>::empty());
        assert(digit(n as int) as int == 48 + n);
        assert(numeral_value(s.drop_last()) == 0);
        assert(s.last() == digit(n as int));
        assert(numeral_value(s) == numeral_value(s.drop_last()) * 10 + (s.last() as int - 48));
    } else {
        let q = n / 10;
        let r = n % 10;
        lemma_decimal_digits_read_back(q);
        let front = decimal_digits(q);
        assert(s == front.push(digit(r as int)));
        assert(s.drop_last() =~= front);
        assert(digit(r as int) as int == 48 + r);
        assert(q * 10 + r == n);
        assert(s.last() == digit(r as int));
        assert(numeral_value(s) == numeral_value(front) * 10 + (s.last() as int - 48));
        assert forall|i: int| 0 <= i < s.len() implies is_ascii_digit(#[trigger] s[i]) by {
            if i < front.len() {
                assert(s[i] == front[i]);
            }
        }
        assert(s[0] == front[0]);
    }
}

/// `decimal` writes a number as `{}` does: a minus sign for a negative number,
/// then the digits of its magnitude, which read back as that magnitude.
pub proof fn lemma_decimal_read_back(n: int)
    ensures
        n >= 0 ==> numeral_value(decimal(n)) == n
            && forall|i: int| 0 <= i < decimal(n).len() ==> is_ascii_digit(#[trigger] decimal(n)[i]),
        n < 0 ==> decimal(n)[0] == '-' && numeral_value(decimal(n).drop_first()) == -n
            && forall|i: int| 1 <= i < decimal(n).len() ==> is_ascii_digit(#[trigger] decimal(n)[i]),
        n != 0 ==> decimal(n)[if n < 0 { 1int } else { 0int }] != '0',
{
    if n >= 0 {
        lemma_decimal_digits_read_back(n as nat);
    } else {
        let m = (-n) as nat;
        lemma_decimal_digits_read_back(m);
        let s = decimal(n);
        assert(s.drop_first() =~= decimal_digits(m));
        assert forall|i: int| 1 <= i < s.len() implies is_ascii_digit(#[trigger] s[i]) by {
            assert(s[i] == decimal_digits(m)[i - 1]);
        }
    }
}

} // verus!
