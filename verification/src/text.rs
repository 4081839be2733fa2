//! Characters and decimal numerals: the character classes of the BP lexical
//! grammar, maximal runs of a class, and the value and the spelling of a
//! decimal numeral.

use vstd::prelude::*;

verus! {

/// Whether `c` has the Unicode `Alphabetic` property, as `char::is_alphabetic`
/// reports it. The property is a table of the Unicode standard; it is named
/// here and never spelled out. The lexer consults it beyond ASCII only.
pub uninterp spec fn char_is_alphabetic(c: char) -> bool;

/// Trusted: `char::is_alphabetic` is a function of the character alone. Nothing
/// is claimed about which characters it accepts.
pub assume_specification[ char::is_alphabetic ](c: char) -> (b: bool)
    ensures
        b == char_is_alphabetic(c),
;

/// Trusted: `String::push` appends the character to the end of the string and
/// leaves the rest as it was.
pub assume_specification[ String::push ](s: &mut String, c: char)
    ensures
        final(s)@ == old(s)@.push(c),
;

/// The ASCII digits `0` to `9`.
pub open spec fn is_digit(c: char) -> bool {
    '0' <= c <= '9'
}

/// The ASCII letters, the only characters that may begin a word.
pub open spec fn is_ascii_letter(c: char) -> bool {
    ('a' <= c <= 'z') || ('A' <= c <= 'Z')
}

/// Space, newline and tab: the characters the lexer skips.
pub open spec fn is_blank(c: char) -> bool {
    c == ' ' || c == '\n' || c == '\t'
}

/// The characters that may continue a word: the alphabetic ones. Within
/// ASCII these are the letters; beyond ASCII the Unicode property decides.
pub open spec fn is_word_char(c: char) -> bool {
    if c <= '\u{7f}' {
        is_ascii_letter(c)
    } else {
        char_is_alphabetic(c)
    }
}

/// Tests whether `c` may continue a word.
pub fn word_char(c: char) -> (b: bool)
    ensures
        b == is_word_char(c),
{
    if c <= '\u{7f}' {
        ('a' <= c && c <= 'z') || ('A' <= c && c <= 'Z')
    } else {
        c.is_alphabetic()
    }
}

/// The classes of characters of which the lexer gathers maximal runs.
#[derive(Clone, Copy, Debug, PartialEq, Eq)]
pub enum CharClass {
    /// An ASCII digit.
    Digit,
    /// A character that may continue a word.
    Word,
    /// Anything but the double quote, inside a string literal.
    StringBody,
}

impl CharClass {
    /// Membership of `c` in the class.
    pub open spec fn holds(self, c: char) -> bool {
        match self {
            CharClass::Digit => is_digit(c),
            CharClass::Word => is_word_char(c),
            CharClass::StringBody => c != '"',
        }
    }

    /// Tests membership of `c` in the class.
    pub fn contains(self, c: char) -> (b: bool)
        ensures
            b == self.holds(c),
    {
        match self {
            CharClass::Digit => '0' <= c && c <= '9',
            CharClass::Word => word_char(c),
            CharClass::StringBody => c != '"',
        }
    }
}

/// The end of the maximal run of characters of `class` that starts at `from`:
/// the first index at or after `from` that holds no character of the class,
/// or the length of `s` if there is none. For `from` outside `s` it is `from`.
pub open spec fn run_end(s: Seq<char>, from: int, class: CharClass) -> int
    decreases s.len() - from,
{
    if 0 <= from < s.len() && class.holds(s[from]) {
        run_end(s, from + 1, class)
    } else {
        from
    }
}

/// `run_end` is the one index `e` with `from <= e <= s.len()` such that
/// everything in `[from, e)` is of the class and `e` is the end of `s` or
/// holds a character outside the class.
pub proof fn lemma_run_end(s: Seq<char>, from: int, class: CharClass)
    requires
        0 <= from <= s.len(),
    ensures
        from <= run_end(s, from, class) <= s.len(),
        forall|i: int| from <= i < run_end(s, from, class) ==> class.holds(#[trigger] s[i]),
        run_end(s, from, class) < s.len() ==> !class.holds(s[run_end(s, from, class)]),
    decreases s.len() - from,
{
    if from < s.len() && class.holds(s[from]) {
        lemma_run_end(s, from + 1, class);
    }
}

/// Any index that ends a run of the class from `from` is `run_end`.
pub proof fn lemma_run_end_unique(s: Seq<char>, from: int, class: CharClass, e: int)
    requires
        0 <= from <= e <= s.len(),
        forall|i: int| from <= i < e ==> class.holds(#[trigger] s[i]),
        e < s.len() ==> !class.holds(s[e]),
    ensures
        run_end(s, from, class) == e,
    decreases e - from,
{
    if from < e {
        assert(class.holds(s[from]));
        lemma_run_end_unique(s, from + 1, class, e);
    }
}

/// Finds the end of the maximal run of `class` in `chars` that starts at `from`.
pub(crate) fn scan_run(chars: &[char], from: usize, class: CharClass) -> (end: usize)
    requires
        from <= chars@.len(),
    ensures
        end == run_end(chars@, from as int, class),
        from <= end <= chars@.len(),
{
    let mut end: usize = from;
    while end < chars.len() && class.contains(chars[end])
        invariant
            from <= end <= chars@.len(),
            run_end(chars@, from as int, class) == run_end(chars@, end as int, class),
        decreases chars@.len() - end,
    {
        end = end + 1;
    }
    end
}

/// The characters of `input`, one element for each.
pub fn to_chars(input: &str) -> (chars: Vec<char>)
    ensures
        chars@ == input@,
{
    let mut chars: Vec<char> = Vec::new();
    for c in it: input.chars()
        invariant
            chars@ == it.seq().take(it.index()),
    {
        chars.push(c);
    }
    chars
}

/// The number that the digit `c` stands for.
pub open spec fn digit_of(c: char) -> nat
    recommends
        is_digit(c),
{
    (c as int - '0' as int) as nat
}

/// The digit that stands for `d`.
pub open spec fn digit_char(d: nat) -> char
    recommends
        d < 10,
{
    (d + '0' as nat) as char
}

/// The value of a decimal numeral; leading zeros count for nothing and the
/// empty numeral is worth zero.
pub open spec fn decimal_value(digits: Seq<char>) -> nat
    decreases digits.len(),
{
    if digits.len() == 0 {
        0
    } else {
        10 * decimal_value(digits.drop_last()) + digit_of(digits.last())
    }
}

/// The shortest decimal numeral for `n`.
pub open spec fn decimal_digits(n: nat) -> Seq<char>
    decreases n,
{
    if n < 10 {
        seq![digit_char(n)]
    } else {
        decimal_digits(n / 10).push(digit_char(n % 10))
    }
}

/// The decimal spelling of an integer, with a leading `-` below zero.
pub open spec fn decimal_text(n: int) -> Seq<char> {
    if n < 0 {
        seq!['-'] + decimal_digits((-n) as nat)
    } else {
        decimal_digits(n as nat)
    }
}

/// A numeral is worth at least as much as each of its prefixes.
pub proof fn lemma_decimal_value_prefix(digits: Seq<char>, k: int)
    requires
        0 <= k <= digits.len(),
    ensures
        decimal_value(digits.take(k)) <= decimal_value(digits),
    decreases digits.len(),
{
    if k == digits.len() {
        assert(digits.take(k) =~= digits);
    } else {
        lemma_decimal_value_prefix(digits.drop_last(), k);
        assert(digits.drop_last().take(k) =~= digits.take(k));
    }
}

/// Every character of `decimal_digits(n)` is a digit.
pub proof fn lemma_decimal_digits_are_digits(n: nat)
    ensures
        decimal_digits(n).len() >= 1,
        forall|i: int| 0 <= i < decimal_digits(n).len() ==> is_digit(#[trigger] decimal_digits(n)[i]),
    decreases n,
{
    if n >= 10 {
        lemma_decimal_digits_are_digits(n / 10);
    }
}

/// Reading back the numeral written for `n` gives `n`.
pub proof fn lemma_decimal_round_trip(n: nat)
    ensures
        decimal_value(decimal_digits(n)) == n,
    decreases n,
{
    if n < 10 {
        let one = seq![digit_char(n)];
        assert(one.drop_last() =~= Seq::<char>::empty());
        assert(decimal_value(one.drop_last()) == 0);
    } else {
        lemma_decimal_round_trip(n / 10);
        let all = decimal_digits(n);
        assert(all.drop_last() =~= decimal_digits(n / 10));
    }
}

/// Reads the numeral in `chars[from..to]` as an `i32`, or reports that its
/// value does not fit.
pub(crate) fn parse_decimal(chars: &[char], from: usize, to: usize) -> (value: Option<i32>)
    requires
        from <= to <= chars@.len(),
        forall|i: int| from <= i < to ==> is_digit(#[trigger] chars@[i]),
    ensures
        decimal_value(chars@.subrange(from as int, to as int)) <= i32::MAX ==> value == Some(
            decimal_value(chars@.subrange(from as int, to as int)) as i32,
        ),
        decimal_value(chars@.subrange(from as int, to as int)) > i32::MAX ==> value is None,
{
    let ghost digits = chars@.subrange(from as int, to as int);
    let mut acc: i64 = 0;
    let mut i: usize = from;
    proof {
        assert(digits.take(0) =~= Seq::<char>::empty());
    }
    while i < to
        invariant
            from <= i <= to <= chars@.len(),
            digits == chars@.subrange(from as int, to as int),
            forall|j: int| from <= j < to ==> is_digit(#[trigger] chars@[j]),
            0 <= acc <= i32::MAX,
            acc == decimal_value(digits.take(i - from)),
        decreases to - i,
    {
        let c = chars[i];
        let d: i64 = (c as u32 - '0' as u32) as i64;
        let next: i64 = acc * 10 + d;
        proof {
            let longer = digits.take(i - from + 1);
            assert(longer.drop_last() =~= digits.take(i - from));
            assert(longer.last() == c);
            assert(decimal_value(longer) == next);
            lemma_decimal_value_prefix(digits, i - from + 1);
        }
        if next > 2147483647 {
            return None;
        }
        acc = next;
        i = i + 1;
    }
    proof {
        assert(digits.take(to - from) =~= digits);
    }
    Some(acc as i32)
}

/// Appends the decimal spelling of `n` to `out`.
pub fn push_decimal(out: &mut String, n: i32)
    ensures
        final(out)@ == old(out)@ + decimal_text(n as int),
{
    let mut rest: u32 = if n < 0 {
        out.push('-');
        (-(n as i64)) as u32
    } else {
        n as u32
    };
    let ghost magnitude: nat = rest as nat;
    let ghost head = out@;
    // The digits of `magnitude`, least significant first.
    let mut low_first: Vec<char> = Vec::new();
    while rest >= 10
        invariant
            decimal_digits(magnitude) =~= decimal_digits(rest as nat) + low_first@.reverse(),
        decreases rest,
    {
        let c = ((rest % 10) as u8 + 48u8) as char;
        proof {
            assert(c == digit_char((rest % 10) as nat));
            assert(low_first@.push(c).reverse() =~= seq![c] + low_first@.reverse());
        }
        low_first.push(c);
        rest = rest / 10;
    }
    let c = (rest as u8 + 48u8) as char;
    proof {
        assert(c == digit_char(rest as nat));
        assert(low_first@.push(c).reverse() =~= seq![c] + low_first@.reverse());
    }
    low_first.push(c);
    assert(decimal_digits(magnitude) =~= low_first@.reverse());
    let mut k: usize = low_first.len();
    while k > 0
        invariant
            k <= low_first@.len(),
            out@ =~= head + low_first@.reverse().take(low_first@.len() - k),
        decreases k,
    {
        k = k - 1;
        out.push(low_first[k]);
    }
    proof {
        assert(low_first@.reverse().take(low_first@.len() as int) =~= low_first@.reverse());
        assert(out@ =~= head + decimal_digits(magnitude));
        if n < 0 {
            assert(head =~= old(out)@ + seq!['-']);
            assert(out@ =~= old(out)@ + decimal_text(n as int));
        }
    }
}

} // verus!
