//! Text building blocks: trimming, numbers in decimal, lists, short ids.

use vstd::prelude::*;
use vstd::string::*;

verus! {

// ---------------------------------------------------------------------------
// Comparing and cutting
// ---------------------------------------------------------------------------

/// The characters of a string, in order.
pub fn chars_of(s: &str) -> (r: Vec<char>)
    ensures
        r@ == s@,
{
    let mut out: Vec<char> = Vec::new();
    for c in it: s.chars()
        invariant
            it.seq() == s@,
            out@ == s@.take(it.index() as int),
    {
        out.push(c);
        assert(out@ =~= s@.take(it.index() + 1));
    }
    assert(s@.take(s@.len() as int) =~= s@);
    out
}

/// Whether two strings are the same.
pub fn same_text(a: &str, b: &str) -> (r: bool)
    ensures
        r == (a@ == b@),
{
    let x: String = String::from_str(a);
    let y: String = String::from_str(b);
    x == y
}

/// Whether `s` begins with `prefix`.
pub fn starts_with(s: &str, prefix: &str) -> (r: bool)
    ensures
        r == prefix@.is_prefix_of(s@),
{
    let n: usize = prefix.unicode_len();
    if s.unicode_len() < n {
        return false;
    }
    same_text(s.substring_char(0, n), prefix)
}

/// White space: the characters that Unicode calls so.
pub open spec fn is_white(c: char) -> bool {
    let n = c as u32;
    ||| 0x9 <= n <= 0xd
    ||| n == 0x20
    ||| n == 0x85
    ||| n == 0xa0
    ||| n == 0x1680
    ||| 0x2000 <= n <= 0x200a
    ||| n == 0x2028
    ||| n == 0x2029
    ||| n == 0x202f
    ||| n == 0x205f
    ||| n == 0x3000
}

/// Whether a character is white space.
fn white(c: char) -> (r: bool)
    ensures
        r == is_white(c),
{
    let n: u32 = c as u32;
    (0x9 <= n && n <= 0xd) || n == 0x20 || n == 0x85 || n == 0xa0 || n == 0x1680 || (0x2000 <= n && n
        <= 0x200a) || n == 0x2028 || n == 0x2029 || n == 0x202f || n == 0x205f || n == 0x3000
}

/// A string without the white space at its two ends.
pub open spec fn trimmed(s: Seq<char>) -> Seq<char>
    decreases s.len(),
{
    if s.len() == 0 {
        s
    } else if is_white(s[0]) {
        trimmed(s.drop_first())
    } else if is_white(s.last()) {
        trimmed(s.drop_last())
    } else {
        s
    }
}

/// The string without the white space at its two ends.
pub fn trim(s: &str) -> (r: String)
    ensures
        r@ == trimmed(s@),
{
    let chars = chars_of(s);
    let mut lo: usize = 0;
    let mut hi: usize = chars.len();
    assert(s@.subrange(0, s@.len() as int) =~= s@);
    while lo < hi && white(chars[lo])
        invariant
            chars@ == s@,
            lo <= hi == s@.len(),
            trimmed(s@) == trimmed(s@.subrange(lo as int, hi as int)),
        decreases hi - lo,
    {
        assert(s@.subrange(lo as int, hi as int).drop_first() =~= s@.subrange(lo + 1, hi as int));
        lo = lo + 1;
    }
    while lo < hi && white(chars[hi - 1])
        invariant
            chars@ == s@,
            lo <= hi <= s@.len(),
            lo < hi ==> !is_white(s@[lo as int]),
            trimmed(s@) == trimmed(s@.subrange(lo as int, hi as int)),
        decreases hi - lo,
    {
        assert(s@.subrange(lo as int, hi as int).drop_last() =~= s@.subrange(lo as int, hi - 1));
        hi = hi - 1;
    }
    String::from_str(s.substring_char(lo, hi))
}

/// A short form of a long id: its first ten characters.
pub open spec fn shortened(s: Seq<char>) -> Seq<char> {
    if s.len() < 10 {
        s
    } else {
        s.take(10)
    }
}

/// A short form of a long id: its first ten characters.
pub fn short_id(hex: &str) -> (r: String)
    ensures
        r@ == shortened(hex@),
{
    if hex.unicode_len() < 10 {
        String::from_str(hex)
    } else {
        String::from_str(hex.substring_char(0, 10))
    }
}

// ---------------------------------------------------------------------------
// Lists
// ---------------------------------------------------------------------------

/// What each of a list of strings says.
pub open spec fn texts(s: Seq<String>) -> Seq<Seq<char>> {
    Seq::new(s.len(), |i: int| s[i]@)
}

/// The parts one after the other with a separator between them.
pub open spec fn joined(parts: Seq<Seq<char>>, sep: Seq<char>) -> Seq<char>
    decreases parts.len(),
{
    if parts.len() == 0 {
        Seq::empty()
    } else if parts.len() == 1 {
        parts[0]
    } else {
        joined(parts.drop_last(), sep) + sep + parts.last()
    }
}

/// The parts one after the other with a separator between them.
pub fn join(parts: &Vec<String>, sep: &str) -> (r: String)
    ensures
        r@ == joined(texts(parts@), sep@),
{
    let mut out = String::new();
    let ghost all = texts(parts@);
    assert(all.take(0) =~= Seq::<Seq<char>>::empty());
    let mut i: usize = 0;
    while i < parts.len()
        invariant
            i <= parts@.len(),
            all == texts(parts@),
            out@ == joined(all.take(i as int), sep@),
        decreases parts@.len() - i,
    {
        proof {
            assert(all.take(i + 1).drop_last() =~= all.take(i as int));
            assert(all.take(i + 1).last() == all[i as int]);
        }
        if i > 0 {
            out.append(sep);
        }
        out.append(parts[i].as_str());
        proof {
            if i == 0 {
                assert(out@ =~= parts@[0]@);
            }
        }
        i = i + 1;
    }
    assert(all.take(i as int) =~= all);
    out
}

// ---------------------------------------------------------------------------
// Numbers
// ---------------------------------------------------------------------------

/// The character of a digit.
pub open spec fn digit(d: nat) -> char {
    (0x30 + d) as char
}

/// A number in decimal.
pub open spec fn decimal(n: nat) -> Seq<char>
    decreases n,
{
    if n < 10 {
        seq![digit(n)]
    } else {
        decimal(n / 10).push(digit(n % 10))
    }
}

/// One digit as a string.
fn digit_text(d: u64) -> (r: &'static str)
    requires
        d < 10,
    ensures
        r@ == seq![digit(d as nat)],
{
    proof {
        reveal_strlit("0");
        reveal_strlit("1");
        reveal_strlit("2");
        reveal_strlit("3");
        reveal_strlit("4");
        reveal_strlit("5");
        reveal_strlit("6");
        reveal_strlit("7");
        reveal_strlit("8");
        reveal_strlit("9");
    }
    let r = if d == 0 {
        "0"
    } else if d == 1 {
        "1"
    } else if d == 2 {
        "2"
    } else if d == 3 {
        "3"
    } else if d == 4 {
        "4"
    } else if d == 5 {
        "5"
    } else if d == 6 {
        "6"
    } else if d == 7 {
        "7"
    } else if d == 8 {
        "8"
    } else {
        "9"
    };
    assert(r@ =~= seq![digit(d as nat)]);
    r
}

/// A number in decimal.
pub fn decimal_text(n: u64) -> (r: String)
    ensures
        r@ == decimal(n as nat),
    decreases n,
{
    if n < 10 {
        String::from_str(digit_text(n))
    } else {
        let mut r = decimal_text(n / 10);
        let ghost front = r@;
        r.append(digit_text(n % 10));
        assert(r@ =~= front.push(digit((n % 10) as nat)));
        r
    }
}

/// Whether a character is a digit.
pub open spec fn is_digit(c: char) -> bool {
    0x30 <= c as u32 <= 0x39
}

/// The number that a string of digits spells.
pub open spec fn number(s: Seq<char>) -> nat
    decreases s.len(),
{
    if s.len() == 0 {
        0
    } else {
        number(s.drop_last()) * 10 + (s.last() as u32 - 0x30) as nat
    }
}

/// Whether a string is one or more digits and nothing else.
pub open spec fn all_digits(s: Seq<char>) -> bool {
    s.len() > 0 && forall|i: int| 0 <= i < s.len() ==> is_digit(#[trigger] s[i])
}

/// The digits of a signed number, behind its sign if there is one.
pub open spec fn digits_part(s: Seq<char>) -> Seq<char> {
    if s.len() > 0 && (s[0] == '-' || s[0] == '+') {
        s.skip(1)
    } else {
        s
    }
}

/// The signed number that a string spells; meaningful where
/// `all_digits(digits_part(s))`.
pub open spec fn signed(s: Seq<char>) -> int {
    if s.len() > 0 && s[0] == '-' {
        -number(digits_part(s))
    } else {
        number(digits_part(s)) as int
    }
}

/// The number that a string spells, if it is an optional sign and then digits,
/// and fits.
pub open spec fn parsed_i32(s: Seq<char>) -> Option<i32> {
    if all_digits(digits_part(s)) && i32::MIN <= signed(s) <= i32::MAX {
        Some(signed(s) as i32)
    } else {
        None
    }
}

/// A longer string of digits spells no smaller a number.
proof fn lemma_number_grows(s: Seq<char>, i: int)
    requires
        0 <= i <= s.len(),
    ensures
        number(s.take(i)) <= number(s),
    decreases s.len() - i,
{
    if i < s.len() {
        lemma_number_grows(s, i + 1);
        assert(s.take(i + 1).drop_last() =~= s.take(i));
    } else {
        assert(s.take(i) =~= s);
    }
}

/// The number that `chars`, from `start` on, spells in digits, capped above the
/// range of 32-bit numbers.
fn digits_value(chars: &Vec<char>, start: usize) -> (r: Option<u64>)
    requires
        start <= chars@.len(),
    ensures
        match r {
            Some(n) => all_digits(chars@.skip(start as int)) && (n == number(chars@.skip(start as int)) || (
            n > 0x1_0000_0000 && number(chars@.skip(start as int)) > 0x1_0000_0000)),
            None => !all_digits(chars@.skip(start as int)),
        },
{
    let ghost body = chars@.skip(start as int);
    if start == chars.len() {
        return None;
    }
    let mut value: u64 = 0;
    let mut i: usize = start;
    assert(body.take(0) =~= Seq::<char>::empty());
    while i < chars.len()
        invariant
            start <= i <= chars@.len(),
            body == chars@.skip(start as int),
            forall|j: int| 0 <= j < i - start ==> is_digit(#[trigger] body[j]),
            value == number(body.take(i - start)) || (value > 0x1_0000_0000 && number(
                body.take(i - start),
            ) > 0x1_0000_0000),
            value <= 0x100_0000_0000,
        decreases chars@.len() - i,
    {
        let c: char = chars[i];
        let n: u32 = c as u32;
        assert(body[i - start] == c);
        if n < 0x30 || n > 0x39 {
            return None;
        }
        assert(body.take(i - start + 1).drop_last() =~= body.take(i - start));
        assert(body.take(i - start + 1).last() == c);
        if value <= 0x1_0000_0000 {
            value = value * 10 + (n - 0x30) as u64;
        }
        i = i + 1;
    }
    assert(body.take(i - start) =~= body);
    Some(value)
}

/// The number that a string spells, if it is an optional sign and then digits,
/// and fits.
pub fn parse_i32(s: &str) -> (r: Option<i32>)
    ensures
        r == parsed_i32(s@),
{
    let chars = chars_of(s);
    let negative = chars.len() > 0 && chars[0] == '-';
    let start: usize = if chars.len() > 0 && (chars[0] == '-' || chars[0] == '+') {
        1
    } else {
        0
    };
    assert(chars@.skip(start as int) =~= digits_part(s@));
    match digits_value(&chars, start) {
        None => None,
        Some(n) => {
            if negative {
                if n <= 0x8000_0000 {
                    Some((0 - n as i64) as i32)
                } else {
                    None
                }
            } else if n <= 0x7fff_ffff {
                Some(n as i32)
            } else {
                None
            }
        },
    }
}

/// A number in decimal is one or more digits that spell the number.
pub proof fn law_decimal_spells_the_number(n: nat)
    ensures
        all_digits(decimal(n)),
        number(decimal(n)) == n,
    decreases n,
{
    let s = decimal(n);
    if n < 10 {
        assert(s.drop_last() =~= Seq::<char>::empty());
        assert(number(s.drop_last()) == 0);
        assert(s.last() == digit(n));
    } else {
        law_decimal_spells_the_number(n / 10);
        assert(s.drop_last() =~= decimal(n / 10));
        assert(s.last() == digit(n % 10));
    }
}

/// What trimming leaves has no white space at its ends, so trimming it again
/// changes nothing.
pub proof fn law_trimmed_has_no_white_ends(s: Seq<char>)
    ensures
        trimmed(s).len() > 0 ==> !is_white(trimmed(s)[0]) && !is_white(trimmed(s).last()),
        trimmed(trimmed(s)) == trimmed(s),
    decreases s.len(),
{
    if s.len() > 0 {
        if is_white(s[0]) {
            law_trimmed_has_no_white_ends(s.drop_first());
        } else if is_white(s.last()) {
            law_trimmed_has_no_white_ends(s.drop_last());
        }
    }
}

/// Trimming cuts a piece out of a string, and what it cuts off is white.
pub proof fn lemma_trim_cut(s: Seq<char>) -> (cut: (int, int))
    ensures
        0 <= cut.0 <= cut.1 <= s.len(),
        trimmed(s) == s.subrange(cut.0, cut.1),
        forall|i: int| 0 <= i < cut.0 ==> is_white(#[trigger] s[i]),
        forall|i: int| cut.1 <= i < s.len() ==> is_white(#[trigger] s[i]),
        (exists|i: int| 0 <= i < s.len() && !is_white(#[trigger] s[i])) ==> trimmed(s).len() > 0,
        (forall|i: int| 0 <= i < s.len() ==> is_white(#[trigger] s[i])) ==> trimmed(s).len() == 0,
    decreases s.len(),
{
    law_trimmed_has_no_white_ends(s);
    let cut = if s.len() > 0 && is_white(s[0]) {
        let t = s.drop_first();
        let c = lemma_trim_cut(t);
        assert(t.subrange(c.0, c.1) =~= s.subrange(c.0 + 1, c.1 + 1));
        assert forall|i: int| 0 <= i < c.0 + 1 implies is_white(#[trigger] s[i]) by {
            if i > 0 {
                assert(s[i] == t[i - 1]);
            }
        }
        assert forall|i: int| c.1 + 1 <= i < s.len() implies is_white(#[trigger] s[i]) by {
            assert(s[i] == t[i - 1]);
        }
        (c.0 + 1, c.1 + 1)
    } else if s.len() > 0 && is_white(s.last()) {
        let t = s.drop_last();
        let c = lemma_trim_cut(t);
        assert(t.subrange(c.0, c.1) =~= s.subrange(c.0, c.1));
        assert forall|i: int| 0 <= i < c.0 implies is_white(#[trigger] s[i]) by {
            assert(s[i] == t[i]);
        }
        assert forall|i: int| c.1 <= i < s.len() implies is_white(#[trigger] s[i]) by {
            if i < t.len() {
                assert(s[i] == t[i]);
            }
        }
        c
    } else {
        assert(s.subrange(0, s.len() as int) =~= s);
        (0int, s.len() as int)
    };
    if exists|i: int| 0 <= i < s.len() && !is_white(#[trigger] s[i]) {
        let i = choose|i: int| 0 <= i < s.len() && !is_white(#[trigger] s[i]);
        assert(cut.0 <= i < cut.1);
    }
    if forall|i: int| 0 <= i < s.len() ==> is_white(#[trigger] s[i]) {
        if trimmed(s).len() > 0 {
            assert(trimmed(s)[0] == s[cut.0]);
        }
    }
    cut
}

/// Trimming takes off white space at the two ends and nothing else: what is left
/// is a piece of the string, in its order, with nothing but white space before and
/// after it, and with no white space at its own ends.
pub proof fn law_trimming_takes_off_white_ends_only(s: &str, r: String)
    requires
        call_ensures(trim, (s,), r),
    ensures
        exists|lo: int, hi: int|
            #![trigger s@.subrange(lo, hi)]
            0 <= lo <= hi <= s@.len() && r@ == s@.subrange(lo, hi) && (forall|i: int|
                0 <= i < lo ==> is_white(#[trigger] s@[i])) && (forall|i: int|
                hi <= i < s@.len() ==> is_white(#[trigger] s@[i])),
        r@.len() > 0 ==> !is_white(r@[0]) && !is_white(r@[r@.len() - 1]),
{
    let cut = lemma_trim_cut(s@);
    law_trimmed_has_no_white_ends(s@);
    assert(r@ == s@.subrange(cut.0, cut.1));
}

/// The white characters: tab, line feed, vertical tab, form feed, carriage return,
/// space, next line, no-break space, Ogham space, the spaces of general
/// punctuation, the line and paragraph separators, and the ideographic space.
pub proof fn law_white_characters(c: char)
    ensures
        is_white(c) <==> {
            ||| c == '\t'
            ||| c == '\n'
            ||| c == '\u{b}'
            ||| c == '\u{c}'
            ||| c == '\r'
            ||| c == ' '
            ||| c == '\u{85}'
            ||| c == '\u{a0}'
            ||| c == '\u{1680}'
            ||| c == '\u{2000}'
            ||| c == '\u{2001}'
            ||| c == '\u{2002}'
            ||| c == '\u{2003}'
            ||| c == '\u{2004}'
            ||| c == '\u{2005}'
            ||| c == '\u{2006}'
            ||| c == '\u{2007}'
            ||| c == '\u{2008}'
            ||| c == '\u{2009}'
            ||| c == '\u{200a}'
            ||| c == '\u{2028}'
            ||| c == '\u{2029}'
            ||| c == '\u{202f}'
            ||| c == '\u{205f}'
            ||| c == '\u{3000}'
        },
{
}

/// A short form of an id is its beginning: all of it if it has fewer than ten
/// characters, and ten of them otherwise.
pub proof fn law_short_ids_are_the_beginning(hex: &str, r: String)
    requires
        call_ensures(short_id, (hex,), r),
    ensures
        r@.is_prefix_of(hex@),
        hex@.len() <= 10 ==> r@ == hex@,
        hex@.len() > 10 ==> r@.len() == 10,
{
    assert(hex@.subrange(0, hex@.len() as int) =~= hex@);
    if hex@.len() >= 10 {
        assert(hex@.subrange(0, 10) =~= hex@.take(10));
        if hex@.len() == 10 {
            assert(hex@.take(10) =~= hex@);
        }
    }
}

/// Joining puts the separator between the parts and nowhere else: nothing for no
/// parts, the part itself for one, and one more part comes behind a separator.
pub proof fn law_separators_stand_between(parts: Seq<Seq<char>>, part: Seq<char>, sep: Seq<char>)
    ensures
        joined(Seq::<Seq<char>>::empty(), sep) == Seq::<char>::empty(),
        joined(seq![part], sep) == part,
        parts.len() > 0 ==> joined(parts.push(part), sep) == joined(parts, sep) + sep + part,
{
    assert(parts.push(part).drop_last() =~= parts);
}

/// The text of a joined list is that of its parts in their order.
pub proof fn law_lists_are_joined_in_order(parts: &Vec<String>, sep: &str, r: String)
    requires
        call_ensures(join, (parts, sep), r),
    ensures
        parts@.len() == 0 ==> r@.len() == 0,
        parts@.len() == 1 ==> r@ == parts@[0]@,
        parts@.len() == 2 ==> r@ == parts@[0]@ + sep@ + parts@[1]@,
        parts@.len() == 3 ==> r@ == parts@[0]@ + sep@ + parts@[1]@ + sep@ + parts@[2]@,
        parts@.len() > 0 ==> parts@[0]@.is_prefix_of(r@) && parts@.last()@.is_suffix_of(r@),
{
    let all = texts(parts@);
    lemma_joined_ends(all, sep@);
    reveal_with_fuel(joined, 4);
    if parts@.len() == 2 {
        assert(all.drop_last() =~= seq![parts@[0]@]);
    }
    if parts@.len() == 3 {
        assert(all.drop_last() =~= seq![parts@[0]@, parts@[1]@]);
        assert(all.drop_last().drop_last() =~= seq![parts@[0]@]);
    }
}

/// A joined list begins with its first part and ends with its last.
proof fn lemma_joined_ends(parts: Seq<Seq<char>>, sep: Seq<char>)
    ensures
        parts.len() > 0 ==> parts[0].is_prefix_of(joined(parts, sep)) && parts.last().is_suffix_of(
            joined(parts, sep),
        ),
    decreases parts.len(),
{
    if parts.len() == 1 {
        assert(parts[0].subrange(0, parts[0].len() as int) =~= parts[0]);
    } else if parts.len() > 1 {
        let front = joined(parts.drop_last(), sep);
        let all = joined(parts, sep);
        lemma_joined_ends(parts.drop_last(), sep);
        assert(parts[0] =~= all.subrange(0, parts[0].len() as int)) by {
            assert(parts[0] =~= front.subrange(0, parts[0].len() as int));
        }
        assert(parts.last() =~= all.subrange(all.len() - parts.last().len(), all.len() as int));
    }
}

/// A number below ten is its digit; a larger one is the digits of its tenth part
/// followed by the digit of the rest.
pub proof fn law_decimal_digits(n: nat)
    ensures
        n == 0 ==> decimal(n) == seq!['0'],
        n == 1 ==> decimal(n) == seq!['1'],
        n == 2 ==> decimal(n) == seq!['2'],
        n == 3 ==> decimal(n) == seq!['3'],
        n == 4 ==> decimal(n) == seq!['4'],
        n == 5 ==> decimal(n) == seq!['5'],
        n == 6 ==> decimal(n) == seq!['6'],
        n == 7 ==> decimal(n) == seq!['7'],
        n == 8 ==> decimal(n) == seq!['8'],
        n == 9 ==> decimal(n) == seq!['9'],
        n >= 10 ==> decimal(n) == decimal(n / 10) + decimal(n % 10),
{
    if n >= 10 {
        assert(decimal(n) =~= decimal(n / 10) + decimal(n % 10));
    }
}

/// The text of a number is the number in decimal, and two numbers never have the
/// same text.
pub proof fn law_numbers_are_told_apart(a: u64, b: u64, r: String)
    requires
        call_ensures(decimal_text, (a,), r),
        call_ensures(decimal_text, (b,), r),
    ensures
        a == b,
        r@ == decimal(a as nat),
{
    law_decimal_spells_the_number(a as nat);
    law_decimal_spells_the_number(b as nat);
}

/// Whether a character is one of the ten digits.
pub open spec fn is_one_of_ten(c: char) -> bool {
    c == '0' || c == '1' || c == '2' || c == '3' || c == '4' || c == '5' || c == '6' || c == '7' || c
        == '8' || c == '9'
}

/// The ten digits are the digits.
proof fn lemma_ten_digits(c: char)
    ensures
        is_digit(c) == is_one_of_ten(c),
{
}

/// Reading a number undoes writing it: the digits of a number, with or without a
/// sign, are read as that number, where it fits.
pub proof fn law_numbers_are_read_back(s: &str, r: Option<i32>, n: nat)
    requires
        call_ensures(parse_i32, (s,), r),
    ensures
        s@ == decimal(n) && n <= i32::MAX ==> r == Some(n as i32),
        s@ == seq!['+'] + decimal(n) && n <= i32::MAX ==> r == Some(n as i32),
        s@ == seq!['-'] + decimal(n) && n <= 0x8000_0000 ==> r == Some((-n) as i32),
        s@ == decimal(n) && n > i32::MAX ==> r is None,
        s@ == seq!['+'] + decimal(n) && n > i32::MAX ==> r is None,
        s@ == seq!['-'] + decimal(n) && n > 0x8000_0000 ==> r is None,
{
    let d = decimal(n);
    law_decimal_spells_the_number(n);
    assert(is_digit(d[0]));
    assert((seq!['+'] + d).skip(1) =~= d);
    assert((seq!['-'] + d).skip(1) =~= d);
    if s@ == seq!['-'] + d && n <= 0x8000_0000 {
        assert(s@[0] == '-');
        assert(digits_part(s@) == d);
        assert(signed(s@) == -n);
    }
}

/// What is no number is not read as one: nothing at all, a sign alone, and
/// anything with a character behind the sign that is no digit.
pub proof fn law_other_texts_are_no_numbers(s: &str, r: Option<i32>, i: int)
    requires
        call_ensures(parse_i32, (s,), r),
    ensures
        s@.len() == 0 ==> r is None,
        s@.len() == 1 && (s@[0] == '-' || s@[0] == '+') ==> r is None,
        0 < i < s@.len() && !is_one_of_ten(s@[i]) ==> r is None,
        s@.len() > 0 && !is_one_of_ten(s@[0]) && s@[0] != '-' && s@[0] != '+' ==> r is None,
{
    let d = digits_part(s@);
    if 0 < i < s@.len() && !is_one_of_ten(s@[i]) {
        lemma_ten_digits(s@[i]);
        if s@[0] == '-' || s@[0] == '+' {
            assert(!is_digit(d[i - 1]));
        } else {
            assert(!is_digit(d[i]));
        }
    }
    if s@.len() > 0 && !is_one_of_ten(s@[0]) && s@[0] != '-' && s@[0] != '+' {
        lemma_ten_digits(s@[0]);
        assert(!is_digit(d[0]));
    }
}

/// Zeros before the digits of a number make no difference to it.
pub proof fn law_leading_zeros_are_ignored(s: Seq<char>)
    requires
        s.len() > 0,
        forall|i: int| 0 <= i < s.len() ==> is_one_of_ten(#[trigger] s[i]),
    ensures
        parsed_i32(seq!['0'] + s) == parsed_i32(s),
        parsed_i32(seq!['-', '0'] + s) == parsed_i32(seq!['-'] + s),
        parsed_i32(seq!['+', '0'] + s) == parsed_i32(seq!['+'] + s),
        parsed_i32(seq!['+'] + s) == parsed_i32(s),
{
    let z = seq!['0'] + s;
    lemma_zero_in_front(s);
    assert((seq!['-', '0'] + s).skip(1) =~= z);
    assert((seq!['+', '0'] + s).skip(1) =~= z);
    assert((seq!['-'] + s).skip(1) =~= s);
    assert((seq!['+'] + s).skip(1) =~= s);
    assert(forall|i: int| 0 <= i < s.len() ==> is_digit(#[trigger] s[i]));
    assert forall|i: int| 0 <= i < z.len() implies is_digit(#[trigger] z[i]) by {
        if i > 0 {
            assert(z[i] == s[i - 1]);
        }
    }
    assert(all_digits(s) && all_digits(z));
    assert(s[0] != '-' && s[0] != '+');
}

/// A zero in front of a string of digits.
proof fn lemma_zero_in_front(s: Seq<char>)
    ensures
        number(seq!['0'] + s) == number(s),
    decreases s.len(),
{
    let z = seq!['0'] + s;
    if s.len() == 0 {
        reveal_with_fuel(number, 2);
        assert(z.drop_last() =~= Seq::<char>::empty());
    } else {
        assert(z.drop_last() =~= seq!['0'] + s.drop_last());
        assert(z.last() == s.last());
        lemma_zero_in_front(s.drop_last());
    }
}

// ---------------------------------------------------------------------------
// Times
// ---------------------------------------------------------------------------

/// How long ago something was seen, in words: in whole seconds up to a minute,
/// whole minutes up to an hour, and whole hours beyond.
pub open spec fn last_seen(ms: u64, now: u64) -> Seq<char> {
    let secs: nat = if now > ms {
        ((now - ms) / 1000) as nat
    } else {
        0
    };
    if ms == 0 {
        "never"@
    } else if secs < 60 {
        decimal(secs) + "s ago"@
    } else if secs < 3600 {
        decimal(secs / 60) + "m ago"@
    } else {
        decimal(secs / 3600) + "h ago"@
    }
}

/// How long before `now` something was seen, in words.
pub fn last_seen_text(ms: u64, now: u64) -> (r: String)
    ensures
        r@ == last_seen(ms, now),
{
    if ms == 0 {
        return String::from_str("never");
    }
    let secs: u64 = now.saturating_sub(ms) / 1000;
    if secs < 60 {
        decimal_text(secs).concat("s ago")
    } else if secs < 3600 {
        decimal_text(secs / 60).concat("m ago")
    } else {
        decimal_text(secs / 3600).concat("h ago")
    }
}

/// How long ago something was seen, in words, by the machine's clock.
pub fn fmt_last_seen(ms: u64) -> (r: String)
    ensures
        exists|now: u64| #[trigger]
            call_ensures(crate::clock::now_ms, (), now) && r@ == last_seen(ms, now),
        ms == 0 ==> r@ == "never"@,
{
    let now: u64 = crate::clock::now_ms();
    assert(call_ensures(crate::clock::now_ms, (), now));
    last_seen_text(ms, now)
}

/// How long ago something was seen: a time of zero was never; from then on, whole
/// seconds below a minute, whole minutes below an hour, whole hours beyond, all of
/// them rounded down, and zero seconds for a time that has not come yet.
pub proof fn law_last_seen_is_rounded_down(ms: u64, now: u64, r: String, n: nat)
    requires
        call_ensures(last_seen_text, (ms, now), r),
    ensures
        ms == 0 ==> r@ == "never"@,
        ms > 0 && now <= ms ==> r@ == seq!['0'] + "s ago"@,
        ms > 0 && n < 60 && n * 1000 <= now - ms < (n + 1) * 1000 ==> r@ == decimal(n) + "s ago"@,
        ms > 0 && 1 <= n < 60 && n * 60_000 <= now - ms < (n + 1) * 60_000 ==> r@ == decimal(n)
            + "m ago"@,
        ms > 0 && 1 <= n && n * 3_600_000 <= now - ms < (n + 1) * 3_600_000 ==> r@ == decimal(n)
            + "h ago"@,
{
    law_decimal_digits(0);
}

/// Read against the machine's clock, a time of zero was never, and any other was so
/// many whole seconds, minutes or hours ago.
pub proof fn law_times_are_told_in_words(ms: u64, r: String)
    requires
        call_ensures(fmt_last_seen, (ms,), r),
    ensures
        ms == 0 ==> r@ == "never"@,
        ms > 0 ==> exists|n: nat|
            r@ == #[trigger] decimal(n) + "s ago"@ || r@ == decimal(n) + "m ago"@ || r@ == decimal(n)
                + "h ago"@,
{
    let now = choose|now: u64| #[trigger]
        call_ensures(crate::clock::now_ms, (), now) && r@ == last_seen(ms, now);
    let secs: nat = if now > ms {
        ((now - ms) / 1000) as nat
    } else {
        0
    };
    let n: nat = if secs < 60 {
        secs
    } else if secs < 3600 {
        secs / 60
    } else {
        secs / 3600
    };
    assert(ms > 0 ==> r@ == decimal(n) + "s ago"@ || r@ == decimal(n) + "m ago"@ || r@ == decimal(n)
        + "h ago"@);
}

/// Texts are compared letter by letter, from the first.
pub proof fn law_texts_are_compared_letter_by_letter(
    a: &str,
    b: &str,
    same: bool,
    starts: bool,
    chars: Vec<char>,
)
    requires
        call_ensures(same_text, (a, b), same),
        call_ensures(starts_with, (a, b), starts),
        call_ensures(chars_of, (a,), chars),
    ensures
        same <==> a@.len() == b@.len() && forall|i: int| 0 <= i < a@.len() ==> #[trigger] a@[i] == b@[i],
        starts <==> a@.len() >= b@.len() && forall|i: int| 0 <= i < b@.len() ==> #[trigger] a@[i] == b@[i],
        chars@.len() == a@.len(),
        forall|i: int| 0 <= i < a@.len() ==> #[trigger] chars@[i] == a@[i],
{
    if a@.len() == b@.len() && forall|i: int| 0 <= i < a@.len() ==> #[trigger] a@[i] == b@[i] {
        assert(a@ =~= b@);
    }
    if a@.len() >= b@.len() {
        let front = a@.subrange(0, b@.len() as int);
        assert(forall|i: int| 0 <= i < front.len() ==> #[trigger] front[i] == a@[i]);
        if forall|i: int| 0 <= i < b@.len() ==> #[trigger] a@[i] == b@[i] {
            assert(front =~= b@);
        }
        if starts {
            assert forall|i: int| 0 <= i < b@.len() implies #[trigger] a@[i] == b@[i] by {
                assert(front[i] == b@[i]);
            }
        }
    }
}

} // verus!
