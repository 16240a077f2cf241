//! Characters, lines, trimming and decimal numbers.

use vstd::prelude::*;

verus! {

/// `String::push` puts one character at the end of the string.
pub assume_specification[ String::push ](s: &mut String, ch: char)
    ensures
        final(s)@ == old(s)@.push(ch),
;

/// The characters of `s`, in order.
pub fn chars_of(s: &str) -> (chars: Vec<char>)
    ensures
        chars@ == s@,
{
    let mut chars: Vec<char> = Vec::new();
    for c in it: s.chars()
        invariant
            it.seq() == s@,
            chars@ == s@.take(it.index()),
    {
        chars.push(c);
        assert(chars@ == s@.take(it.index() + 1));
    }
    assert(s@.take(s@.len() as int) == s@);
    chars
}

/// Whether `c` has the Unicode property `White_Space`.
pub open spec fn is_white_space(c: char) -> bool {
    let n = c as u32;
    ||| 0x9 <= n <= 0xd
    ||| n == 0x20
    ||| n == 0x85
    ||| n == 0xa0
    ||| n == 0x1680
    ||| 0x2000 <= n <= 0x200a
    ||| n == 0x2028
    ||| n == 0x2029
    ||| n == 0x202f
    ||| n == 0x205f
    ||| n == 0x3000
}

/// `s` without the white space it begins with.
pub open spec fn trim_start(s: Seq<char>) -> Seq<char>
    decreases s.len(),
{
    if s.len() > 0 && is_white_space(s[0]) {
        trim_start(s.drop_first())
    } else {
        s
    }
}

/// `s` without the white space it ends with.
pub open spec fn trim_end(s: Seq<char>) -> Seq<char>
    decreases s.len(),
{
    if s.len() > 0 && is_white_space(s.last()) {
        trim_end(s.drop_last())
    } else {
        s
    }
}

/// `s` without the white space around it.
pub open spec fn trim(s: Seq<char>) -> Seq<char> {
    trim_end(trim_start(s))
}

/// The pieces of `s` between its line feeds. There is one more of them than there are
/// line feeds, so the text after the last line feed is a line too, possibly empty.
pub open spec fn lines(s: Seq<char>) -> Seq<Seq<char>>
    decreases s.len(),
{
    if s.len() == 0 {
        seq![Seq::empty()]
    } else {
        let before = lines(s.drop_last());
        if s.last() == '\n' {
            before.push(Seq::empty())
        } else {
            before.drop_last().push(before.last().push(s.last()))
        }
    }
}

/// Whether `c` is white space.
pub fn white_space(c: char) -> (r: bool)
    ensures
        r == is_white_space(c),
{
    let n: u32 = c as u32;
    (0x9 <= n && n <= 0xd) || n == 0x20 || n == 0x85 || n == 0xa0 || n == 0x1680 || (0x2000 <= n
        && n <= 0x200a) || n == 0x2028 || n == 0x2029 || n == 0x202f || n == 0x205f || n == 0x3000
}

/// The characters of `line` without the white space around them, as a string.
pub fn trimmed(line: &Vec<char>) -> (r: String)
    ensures
        r@ == trim(line@),
{
    let mut from: usize = 0;
    assert(line@.skip(0) == line@);
    while from < line.len() && white_space(line[from])
        invariant
            from <= line.len(),
            trim_start(line@.skip(from as int)) == trim_start(line@),
        decreases line.len() - from,
    {
        assert(line@.skip(from as int).drop_first() == line@.skip(from + 1));
        from += 1;
    }
    let ghost start = line@.skip(from as int);
    assert(start == trim_start(line@));
    let mut to: usize = line.len();
    assert(line@.subrange(from as int, to as int) == start);
    while to > from && white_space(line[to - 1])
        invariant
            from <= to <= line.len(),
            trim_end(line@.subrange(from as int, to as int)) == trim_end(start),
        decreases to - from,
    {
        assert(line@.subrange(from as int, to as int).drop_last() == line@.subrange(
            from as int,
            to - 1,
        ));
        to -= 1;
    }
    let mut r: String = String::new();
    let mut i: usize = from;
    while i < to
        invariant
            from <= i <= to <= line.len(),
            r@ == line@.subrange(from as int, i as int),
        decreases to - i,
    {
        r.push(line[i]);
        i += 1;
        assert(r@ == line@.subrange(from as int, i as int));
    }
    r
}

/// The character of the decimal digit `d`.
pub open spec fn digit_char(d: int) -> char {
    (d + 48) as char
}

/// `n` in decimal, without leading zeros.
pub open spec fn decimal(n: nat) -> Seq<char>
    decreases n,
{
    if n < 10 {
        seq![digit_char(n as int)]
    } else {
        decimal(n / 10).push(digit_char((n % 10) as int))
    }
}

/// Whether `c` is one of the characters `0` to `9`.
pub open spec fn is_digit(c: char) -> bool {
    '0' <= c <= '9'
}

/// The number that the digits `s` write in decimal.
pub open spec fn decimal_value(s: Seq<char>) -> nat
    decreases s.len(),
{
    if s.len() == 0 {
        0
    } else {
        decimal_value(s.drop_last()) * 10 + (s.last() as nat - '0' as nat) as nat
    }
}

/// `s` without the plus sign that it may begin with.
pub open spec fn without_plus(s: Seq<char>) -> Seq<char> {
    if s.len() > 0 && s[0] == '+' {
        s.drop_first()
    } else {
        s
    }
}

/// Whether `s` is at least one digit and nothing else.
pub open spec fn is_digits(s: Seq<char>) -> bool {
    s.len() > 0 && forall|i: int| 0 <= i < s.len() ==> is_digit(#[trigger] s[i])
}

/// The number that `s` stands for: digits, with at most one plus sign before them.
pub open spec fn unsigned(s: Seq<char>) -> Option<nat> {
    if is_digits(without_plus(s)) {
        Some(decimal_value(without_plus(s)))
    } else {
        None
    }
}

/// `n` in decimal.
pub fn decimal_text(n: u64) -> (r: String)
    ensures
        r@ == decimal(n as nat),
    decreases n,
{
    let mut r: String = if n < 10 {
        String::new()
    } else {
        decimal_text(n / 10)
    };
    let d: u8 = (n % 10) as u8;
    r.push((d + 48) as char);
    assert(n < 10 ==> r@ == decimal(n as nat));
    r
}

/// The number that `s` stands for, if it is at most `max`.
pub fn parse_unsigned(s: &str, max: u64) -> (r: Option<u64>)
    ensures
        r == match unsigned(s@) {
            Some(n) => if n <= max {
                Some(n as u64)
            } else {
                None
            },
            None => None,
        },
{
    let chars: Vec<char> = chars_of(s);
    let from: usize = if chars.len() > 0 && chars[0] == '+' {
        1
    } else {
        0
    };
    let ghost digits = chars@.skip(from as int);
    assert(digits == without_plus(s@));
    if from == chars.len() {
        return None;
    }
    let mut value: u64 = 0;
    let mut over: bool = false;
    let mut i: usize = from;
    while i < chars.len()
        invariant
            from <= i <= chars.len(),
            digits == chars@.skip(from as int),
            digits == without_plus(s@),
            forall|j: int| 0 <= j < i - from ==> is_digit(#[trigger] digits[j]),
            over ==> decimal_value(digits.take(i - from)) > max,
            !over ==> value == decimal_value(digits.take(i - from)) && value <= max,
        decreases chars.len() - i,
    {
        let c: char = chars[i];
        assert(digits[i - from] == c);
        if c < '0' || c > '9' {
            assert(!is_digit(digits[i - from]));
            return None;
        }
        let d: u64 = (c as u32 - 48) as u64;
        assert(digits.take(i + 1 - from).drop_last() == digits.take(i - from));
        assert(decimal_value(digits.take(i + 1 - from)) == decimal_value(digits.take(i - from)) * 10
            + d);
        if !over {
            if value > max / 10 || d > max - value * 10 {
                over = true;
            } else {
                value = value * 10 + d;
            }
        }
        i += 1;
    }
    assert(digits.take(digits.len() as int) == digits);
    if over {
        None
    } else {
        Some(value)
    }
}

/// The value of a numeric setting: `value` where it is a number of at most `max`, and
/// `default` where it is missing or anything else.
pub open spec fn setting(value: Option<Seq<char>>, max: u64, default: u64) -> u64 {
    match value {
        Some(s) => match unsigned(s) {
            Some(n) => if n <= max {
                n as u64
            } else {
                default
            },
            None => default,
        },
        None => default,
    }
}

/// The value of a numeric setting.
pub fn read_setting(value: &Option<String>, max: u64, default: u64) -> (r: u64)
    ensures
        r == setting(opt_text(*value), max, default),
{
    match value {
        Some(s) => match parse_unsigned(s.as_str(), max) {
            Some(n) => n,
            None => default,
        },
        None => default,
    }
}

/// The text in `o`, if there is one.
pub open spec fn opt_text(o: Option<String>) -> Option<Seq<char>> {
    match o {
        Some(s) => Some(s@),
        None => None,
    }
}

/// The text of `head` followed by `tail`.
pub fn joined(head: &str, tail: &str) -> (r: String)
    ensures
        r@ == head@ + tail@,
{
    let mut r: String = head.to_owned();
    r.append(tail);
    r
}

proof fn lemma_decimal_is_digits(n: nat)
    ensures
        decimal(n).len() > 0,
        forall|i: int| 0 <= i < decimal(n).len() ==> is_digit(#[trigger] decimal(n)[i]),
        decimal_value(decimal(n)) == n,
    decreases n,
{
    if n < 10 {
        let s = decimal(n);
        assert(s.drop_last() == Seq::<char>::empty());
        assert(decimal_value(s.drop_last()) == 0);
    } else {
        lemma_decimal_is_digits(n / 10);
        let s = decimal(n);
        assert(s.drop_last() == decimal(n / 10));
        assert(s.last() == digit_char((n % 10) as int));
    }
}

/// A number is what its decimal text is read as.
pub proof fn law_decimal_reads_back(n: nat)
    ensures
        unsigned(decimal(n)) == Some(n),
{
    lemma_decimal_is_digits(n);
    assert(is_digit(decimal(n)[0]));
}

proof fn lemma_trim_start(s: Seq<char>) -> (i: int)
    ensures
        0 <= i <= s.len(),
        trim_start(s) == s.skip(i),
        forall|k: int| 0 <= k < i ==> is_white_space(#[trigger] s[k]),
        i < s.len() ==> !is_white_space(s[i]),
    decreases s.len(),
{
    if s.len() > 0 && is_white_space(s[0]) {
        let rest = s.drop_first();
        let j = lemma_trim_start(rest);
        assert(rest.skip(j) == s.skip(j + 1));
        assert forall|k: int| 0 <= k < j + 1 implies is_white_space(#[trigger] s[k]) by {
            if k > 0 {
                assert(rest[k - 1] == s[k]);
            }
        }
        if j < rest.len() {
            assert(rest[j] == s[j + 1]);
        }
        j + 1
    } else {
        assert(s.skip(0) == s);
        0
    }
}

proof fn lemma_trim_end(s: Seq<char>) -> (j: int)
    ensures
        0 <= j <= s.len(),
        trim_end(s) == s.take(j),
        forall|k: int| j <= k < s.len() ==> is_white_space(#[trigger] s[k]),
        0 < j ==> !is_white_space(s[j - 1]),
    decreases s.len(),
{
    if s.len() > 0 && is_white_space(s.last()) {
        let rest = s.drop_last();
        let j = lemma_trim_end(rest);
        assert(rest.take(j) == s.take(j));
        assert forall|k: int| j <= k < s.len() implies is_white_space(#[trigger] s[k]) by {
            if k < rest.len() {
                assert(rest[k] == s[k]);
            }
        }
        j
    } else {
        assert(s.take(s.len() as int) == s);
        s.len() as int
    }
}

/// Trimming takes off nothing but white space, and all of it that stands at the ends: what is
/// left is a piece of the text around which there is only white space, and it neither begins nor
/// ends with white space.
pub proof fn law_trim_leaves_the_inner_piece(s: Seq<char>)
    ensures
        exists|i: int, j: int|
            #![trigger s.subrange(i, j)]
            {
                &&& 0 <= i <= j <= s.len()
                &&& trim(s) == s.subrange(i, j)
                &&& forall|k: int| 0 <= k < i || j <= k < s.len() ==> is_white_space(#[trigger] s[k])
                &&& i < j ==> !is_white_space(s[i]) && !is_white_space(s[j - 1])
            },
{
    let i = lemma_trim_start(s);
    let t = s.skip(i);
    let n = lemma_trim_end(t);
    let j = i + n;
    assert(t.take(n) == s.subrange(i, j));
    assert forall|k: int| 0 <= k < i || j <= k < s.len() implies is_white_space(
        #[trigger] s[k],
    ) by {
        if j <= k {
            assert(t[k - i] == s[k]);
        }
    }
    if i < j {
        assert(t[n - 1] == s[j - 1]);
    }
}

/// A text with white space around it, and one without, are trimmed to the same.
pub proof fn law_padding_is_trimmed(a: Seq<char>, s: Seq<char>, b: Seq<char>)
    requires
        forall|k: int| 0 <= k < a.len() ==> is_white_space(#[trigger] a[k]),
        forall|k: int| 0 <= k < b.len() ==> is_white_space(#[trigger] b[k]),
        s.len() > 0,
        !is_white_space(s[0]),
        !is_white_space(s.last()),
    ensures
        trim(a + s + b) == s,
{
    let t = a + s + b;
    let i = lemma_trim_start(t);
    if i < a.len() {
        assert(is_white_space(a[i]));
        assert(t[i] == a[i]);
    }
    assert(t[a.len() as int] == s[0]);
    assert(i == a.len());
    let u = t.skip(i);
    assert(u == s + b);
    let j = lemma_trim_end(u);
    assert(u[s.len() - 1] == s.last());
    if j > s.len() {
        assert(u[j - 1] == b[j - 1 - s.len()]);
    }
    assert(u.take(j) == s);
}

/// `all`, with a line feed between one and the next.
pub open spec fn with_line_feeds(all: Seq<Seq<char>>) -> Seq<char>
    decreases all.len(),
{
    if all.len() == 0 {
        Seq::empty()
    } else if all.len() == 1 {
        all[0]
    } else {
        with_line_feeds(all.drop_last()).push('\n') + all.last()
    }
}

/// Lines hold no line feed, and with line feeds between them they are the text again.
pub proof fn law_lines_are_the_text(s: Seq<char>)
    ensures
        lines(s).len() > 0,
        forall|i: int, k: int|
            #![trigger lines(s)[i][k]]
            0 <= i < lines(s).len() && 0 <= k < lines(s)[i].len() ==> lines(s)[i][k] != '\n',
        with_line_feeds(lines(s)) == s,
    decreases s.len(),
{
    if s.len() > 0 {
        let t = s.drop_last();
        let c = s.last();
        law_lines_are_the_text(t);
        let before = lines(t);
        let after = lines(s);
        assert(s == t.push(c));
        if c == '\n' {
            assert(after.drop_last() == before);
            assert(with_line_feeds(after) == s);
        } else {
            let n = before.len();
            assert(after.drop_last() == before.drop_last());
            assert(after.last() == before.last().push(c));
            if n == 1 {
                assert(with_line_feeds(after) == before[0].push(c));
            } else {
                let head = with_line_feeds(before.drop_last()).push('\n');
                assert(with_line_feeds(after) == head + before.last().push(c));
                assert(head + before.last().push(c) == (head + before.last()).push(c));
            }
        }
        assert forall|i: int, k: int|
            #![trigger lines(s)[i][k]]
            0 <= i < lines(s).len() && 0 <= k < lines(s)[i].len() implies lines(s)[i][k]
            != '\n' by {
            if i < before.len() - 1 || (c == '\n' && i < before.len()) {
                assert(after[i] == before[i]);
                assert(before[i][k] != '\n');
            } else if c != '\n' && k < before.last().len() {
                assert(before[before.len() - 1][k] != '\n');
                assert(after[i][k] == before[before.len() - 1][k]);
            }
        }
    } else {
        assert(lines(s)[0] == Seq::<char>::empty());
    }
}

/// The decimal text of ten times `n` and a digit is that of `n` with the digit behind it; a
/// single digit is its own text.
pub proof fn law_decimal_grows_by_a_digit(n: nat, d: nat)
    requires
        d < 10,
    ensures
        decimal(d) == seq!["0123456789"@[d as int]],
        n > 0 ==> decimal(10 * n + d) == decimal(n).push("0123456789"@[d as int]),
        decimal_value(seq!["0123456789"@[d as int]]) == d,
{
    reveal_strlit("0123456789");
    assert((10 * n + d) / 10 == n && (10 * n + d) % 10 == d);
    let s = seq!["0123456789"@[d as int]];
    assert(s.drop_last() == Seq::<char>::empty());
    assert(decimal_value(s.drop_last()) == 0);
    assert("0123456789"@[d as int] == digit_char(d as int));
}

/// A digit behind digits adds itself to ten times their value.
pub proof fn law_value_grows_by_a_digit(s: Seq<char>, d: nat)
    requires
        d < 10,
    ensures
        decimal_value(Seq::empty()) == 0,
        decimal_value(s.push("0123456789"@[d as int])) == 10 * decimal_value(s) + d,
{
    reveal_strlit("0123456789");
    let t = s.push("0123456789"@[d as int]);
    assert(t.drop_last() == s);
}

/// A text is read as a number exactly where it is one or more of the ten digits, with or without
/// one plus sign before them; the plus sign changes nothing.
pub proof fn law_numbers_are_digits(s: Seq<char>)
    ensures
        ({
            let digits = s.len() > 0 && forall|i: int|
                0 <= i < s.len() ==> '0' <= #[trigger] s[i] <= '9';
            &&& digits ==> unsigned(s) == Some(decimal_value(s)) && unsigned(seq!['+'] + s)
                == Some(decimal_value(s))
            &&& !digits && !(s.len() > 0 && s[0] == '+') ==> unsigned(s) is None && unsigned(
                seq!['+'] + s,
            ) is None
            &&& s.len() > 0 && s[0] == '+' ==> unsigned(seq!['+'] + s) is None
        }),
{
    let t = seq!['+'] + s;
    assert(t.drop_first() == s);
    assert(t[0] == '+');
    if s.len() > 0 && s[0] == '+' {
        assert(!is_digit(s[0]));
    }
    if s.len() > 0 && forall|i: int| 0 <= i < s.len() ==> '0' <= #[trigger] s[i] <= '9' {
        assert('0' <= s[0]);
        assert forall|i: int| 0 <= i < s.len() implies is_digit(#[trigger] s[i]) by {
            assert('0' <= s[i] <= '9');
        }
    } else if s.len() > 0 {
        let i = choose|i: int| 0 <= i < s.len() && !('0' <= #[trigger] s[i] <= '9');
        assert(!is_digit(s[i]));
    }
}

/// A setting is the number that is given, where it is in range; and its default where it is
/// missing, is not a number, or is out of range.
pub proof fn law_setting_or_default(s: Seq<char>, max: u64, default: u64)
    ensures
        setting(None, max, default) == default,
        unsigned(s) is None ==> setting(Some(s), max, default) == default,
        unsigned(s) matches Some(n) ==> if n <= max {
            setting(Some(s), max, default) as nat == n
        } else {
            setting(Some(s), max, default) == default
        },
{
}

/// An optional text is seen as the text that it holds.
pub proof fn law_optional_text(s: String)
    ensures
        opt_text(Some(s)) == Some(s@),
        opt_text(None) is None,
{
}

} // verus!
