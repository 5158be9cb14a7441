//! Numbers and lists read from text.
use crate::text::{digit, digits};
use vstd::prelude::*;
use vstd::string::StrSliceExecFns;

verus! {

/// Why a text is not a number.
#[derive(Debug, Clone, Copy, PartialEq, Eq, Structural)]
pub enum NumberFault {
    Empty,
    InvalidDigit,
    TooLarge,
}

impl NumberFault {
    /// The fault in words.
    pub open spec fn words(self) -> Seq<char> {
        match self {
            NumberFault::Empty => "cannot parse integer from empty string"@,
            NumberFault::InvalidDigit => "invalid digit found in string"@,
            NumberFault::TooLarge => "number too large to fit in target type"@,
        }
    }

    /// The fault in words.
    pub fn text(&self) -> (s: &'static str)
        ensures
            s@ == self.words(),
    {
        match self {
            NumberFault::Empty => "cannot parse integer from empty string",
            NumberFault::InvalidDigit => "invalid digit found in string",
            NumberFault::TooLarge => "number too large to fit in target type",
        }
    }
}

/// The value of a decimal digit.
pub open spec fn digit_value(c: char) -> Option<nat> {
    if 48 <= c as u32 <= 57 {
        Some((c as u32 - 48) as nat)
    } else {
        None
    }
}

/// The number that a run of decimal digits stands for, read from the left and up to `max`.
pub open spec fn digits_value(s: Seq<char>, max: nat) -> Result<nat, NumberFault>
    decreases s.len(),
{
    if s.len() == 0 {
        Ok(0)
    } else {
        match digits_value(s.drop_last(), max) {
            Err(e) => Err(e),
            Ok(v) => match digit_value(s.last()) {
                None => Err(NumberFault::InvalidDigit),
                Some(d) => if v * 10 + d > max {
                    Err(NumberFault::TooLarge)
                } else {
                    Ok(v * 10 + d)
                },
            },
        }
    }
}

/// The number that a text stands for: decimal digits, with or without a plus sign before
/// them, up to `max`.
pub open spec fn number_of(s: Seq<char>, max: nat) -> Result<nat, NumberFault> {
    if s.len() == 0 {
        Err(NumberFault::Empty)
    } else if s[0] == '+' {
        if s.len() == 1 {
            Err(NumberFault::InvalidDigit)
        } else {
            digits_value(s.drop_first(), max)
        }
    } else {
        digits_value(s, max)
    }
}

/// The number that a text stands for.
pub fn parse_number(s: &Vec<char>, max: u64) -> (r: Result<u64, NumberFault>)
    ensures
        match r {
            Ok(n) => number_of(s@, max as nat) == Ok::<nat, NumberFault>(n as nat),
            Err(e) => number_of(s@, max as nat) == Err::<nat, NumberFault>(e),
        },
{
    if s.len() == 0 {
        return Err(NumberFault::Empty);
    }
    let mut first: usize = 0;
    if s[0] == '+' {
        if s.len() == 1 {
            return Err(NumberFault::InvalidDigit);
        }
        first = 1;
    }
    let ghost digits = if first == 1 {
        s@.drop_first()
    } else {
        s@
    };
    assert(digits =~= s@.subrange(first as int, s@.len() as int));
    let mut v: u64 = 0;
    let mut i: usize = first;
    proof {
        assert(digits.take(0) =~= Seq::<char>::empty());
    }
    while i < s.len()
        invariant
            first <= i <= s@.len(),
            digits == s@.subrange(first as int, s@.len() as int),
            v <= max,
            digits_value(digits.take(i - first), max as nat) == Ok::<nat, NumberFault>(v as nat),
            number_of(s@, max as nat) == digits_value(digits, max as nat),
        decreases s@.len() - i,
    {
        let c: char = s[i];
        proof {
            let next = digits.take(i - first + 1);
            assert(next.drop_last() =~= digits.take(i - first));
            assert(next.last() == c);
        }
        let code: u32 = c as u32;
        if code < 48 || code > 57 {
            proof {
                lemma_fault_stays(digits, i - first + 1, max as nat);
            }
            return Err(NumberFault::InvalidDigit);
        }
        let wide: u128 = (v as u128) * 10 + ((code - 48) as u128);
        if wide > max as u128 {
            proof {
                lemma_fault_stays(digits, i - first + 1, max as nat);
            }
            return Err(NumberFault::TooLarge);
        }
        v = wide as u64;
        i = i + 1;
    }
    assert(digits.take(digits.len() as int) =~= digits);
    Ok(v)
}

/// What is wrong with the front of a text is wrong with the text.
proof fn lemma_fault_stays(s: Seq<char>, n: int, max: nat)
    requires
        0 <= n <= s.len(),
        digits_value(s.take(n), max) is Err,
    ensures
        digits_value(s, max) == digits_value(s.take(n), max),
    decreases s.len() - n,
{
    if n < s.len() {
        let next = s.take(n + 1);
        assert(next.drop_last() =~= s.take(n));
        lemma_fault_stays(s, n + 1, max);
    } else {
        assert(s.take(n) =~= s);
    }
}

/// White space: the characters that separate words.
pub open spec fn is_space(c: char) -> bool {
    let n = c as u32;
    ||| 9 <= n <= 13
    ||| n == 0x20
    ||| n == 0x85
    ||| n == 0xa0
    ||| n == 0x1680
    ||| 0x2000 <= n <= 0x200a
    ||| n == 0x2028
    ||| n == 0x2029
    ||| n == 0x202f
    ||| n == 0x205f
    ||| n == 0x3000
}

/// Whether a character is white space.
fn is_white(c: char) -> (r: bool)
    ensures
        r == is_space(c),
{
    let n: u32 = c as u32;
    (9 <= n && n <= 13) || n == 0x20 || n == 0x85 || n == 0xa0 || n == 0x1680 || (0x2000 <= n && n
        <= 0x200a) || n == 0x2028 || n == 0x2029 || n == 0x202f || n == 0x205f || n == 0x3000
}

/// A text without the white space around it.
pub open spec fn trimmed(s: Seq<char>) -> Seq<char>
    decreases s.len(),
{
    if s.len() == 0 {
        s
    } else if is_space(s[0]) {
        trimmed(s.drop_first())
    } else if is_space(s.last()) {
        trimmed(s.drop_last())
    } else {
        s
    }
}

/// The characters of a text without the white space around it.
pub fn trim_text(s: &str) -> (v: Vec<char>)
    ensures
        v@ == trimmed(s@),
{
    let mut start: usize = 0;
    let mut end: usize = s.unicode_len();
    proof {
        assert(s@.subrange(0, s@.len() as int) =~= s@);
    }
    while start < end && is_white(s.get_char(start))
        invariant
            start <= end,
            end == s@.len(),
            trimmed(s@) == trimmed(s@.subrange(start as int, end as int)),
        decreases end - start,
    {
        proof {
            let now = s@.subrange(start as int, end as int);
            assert(now.drop_first() =~= s@.subrange(start + 1, end as int));
        }
        start = start + 1;
    }
    while start < end && is_white(s.get_char(end - 1))
        invariant
            start <= end <= s@.len(),
            start < end ==> !is_space(s@[start as int]),
            trimmed(s@) == trimmed(s@.subrange(start as int, end as int)),
        decreases end - start,
    {
        proof {
            let now = s@.subrange(start as int, end as int);
            assert(now.drop_last() =~= s@.subrange(start as int, end - 1));
        }
        end = end - 1;
    }
    let ghost kept = s@.subrange(start as int, end as int);
    let mut v: Vec<char> = Vec::new();
    let mut i: usize = start;
    while i < end
        invariant
            start <= i <= end,
            end <= s@.len(),
            v@ == s@.subrange(start as int, i as int),
        decreases end - i,
    {
        v.push(s.get_char(i));
        assert(v@ =~= s@.subrange(start as int, i + 1));
        i = i + 1;
    }
    assert(v@ == kept);
    v
}

/// The parts of a text that are separated by `separator`.
pub open spec fn fields(s: Seq<char>, separator: char) -> Seq<Seq<char>>
    decreases s.len(),
{
    if s.len() == 0 {
        seq![Seq::<char>::empty()]
    } else {
        let front = fields(s.drop_last(), separator);
        if s.last() == separator {
            front.push(Seq::<char>::empty())
        } else {
            front.drop_last().push(front.last().push(s.last()))
        }
    }
}

/// The numbers up to `max` among some texts, in their order. What is not a number is left
/// out.
pub open spec fn numbers_among(parts: Seq<Seq<char>>, max: nat) -> Seq<nat>
    decreases parts.len(),
{
    if parts.len() == 0 {
        Seq::empty()
    } else {
        let front = numbers_among(parts.drop_last(), max);
        match number_of(parts.last(), max) {
            Ok(n) => front.push(n),
            Err(_) => front,
        }
    }
}

/// The numbers in a list that is separated by commas. What is not a number is left out.
pub fn parse_list(s: &str) -> (v: Vec<u32>)
    ensures
        v@.map_values(|n: u32| n as nat) == numbers_among(fields(s@, ','), u32::MAX as nat),
{
    let mut v: Vec<u32> = Vec::new();
    let mut current: Vec<char> = Vec::new();
    let n: usize = s.unicode_len();
    let mut i: usize = 0;
    proof {
        assert(s@.take(0) =~= Seq::<char>::empty());
        let start = fields(s@.take(0), ',');
        assert(start.drop_last() =~= Seq::<Seq<char>>::empty());
        assert(current@ =~= start.last());
        assert(v@.map_values(|n: u32| n as nat) =~= Seq::<nat>::empty());
    }
    while i < n
        invariant
            n == s@.len(),
            i <= n,
            fields(s@.take(i as int), ',').len() > 0,
            current@ == fields(s@.take(i as int), ',').last(),
            v@.map_values(|n: u32| n as nat) == numbers_among(
                fields(s@.take(i as int), ',').drop_last(),
                u32::MAX as nat,
            ),
        decreases n - i,
    {
        let c: char = s.get_char(i);
        let ghost now = fields(s@.take(i as int), ',');
        proof {
            assert(s@.take(i + 1).drop_last() =~= s@.take(i as int));
            assert(s@.take(i + 1).last() == c);
        }
        if c == ',' {
            proof {
                let next = fields(s@.take(i + 1), ',');
                assert(next.drop_last() =~= now);
            }
            match parse_number(&current, u32::MAX as u64) {
                Ok(x) => {
                    let ghost before = v@;
                    v.push(x as u32);
                    assert(v@.map_values(|n: u32| n as nat) =~= before.map_values(
                        |n: u32| n as nat,
                    ).push(x as nat));
                },
                Err(_) => {},
            }
            current = Vec::new();
            assert(current@ =~= Seq::<char>::empty());
        } else {
            current.push(c);
            proof {
                let next = fields(s@.take(i + 1), ',');
                assert(next.drop_last() =~= now.drop_last());
            }
        }
        i = i + 1;
    }
    assert(s@.take(n as int) =~= s@);
    match parse_number(&current, u32::MAX as u64) {
        Ok(x) => {
            let ghost before = v@;
            v.push(x as u32);
            assert(v@.map_values(|n: u32| n as nat) =~= before.map_values(|n: u32| n as nat).push(
                x as nat,
            ));
        },
        Err(_) => {},
    }
    v
}

/// The characters of a text.
pub fn chars_of(s: &str) -> (v: Vec<char>)
    ensures
        v@ == s@,
{
    let mut v: Vec<char> = Vec::new();
    let n: usize = s.unicode_len();
    let mut i: usize = 0;
    while i < n
        invariant
            n == s@.len(),
            i <= n,
            v@ == s@.take(i as int),
        decreases n - i,
    {
        v.push(s.get_char(i));
        assert(v@ =~= s@.take(i + 1));
        i = i + 1;
    }
    assert(s@.take(n as int) =~= s@);
    v
}

/// A number reads back as it was written.
pub proof fn law_number_reads_back(n: nat, max: nat)
    requires
        n <= max,
    ensures
        number_of(digits(n), max) == Ok::<nat, NumberFault>(n),
        digits_value(digits(n), max) == Ok::<nat, NumberFault>(n),
        digits(n).len() > 0,
        digits(n)[0] != '+',
    decreases n,
{
    reveal_with_fuel(digits_value, 2);
    if n < 10 {
        let s = digits(n);
        assert(s.drop_last() =~= Seq::<char>::empty());
        assert(s.last() == digit(n));
    } else {
        law_number_reads_back(n / 10, max);
        let s = digits(n);
        assert(s.drop_last() =~= digits(n / 10));
        assert(s.last() == digit(n % 10));
        assert((n / 10) * 10 + n % 10 == n);
        assert(s[0] == digits(n / 10)[0]);
    }
}

/// A decimal digit, by its code.
pub open spec fn is_digit(c: char) -> bool {
    0x30 <= c as u32 <= 0x39
}

/// A number that is too large is refused as such, and a text that holds anything but digits
/// behind an optional sign is never read as a number; what is read is never above `max`.
pub proof fn law_only_numbers_are_read(s: Seq<char>, n: nat, max: nat)
    ensures
        n > max ==> number_of(digits(n), max) == Err::<nat, NumberFault>(NumberFault::TooLarge),
        n <= max ==> number_of(seq!['+'] + digits(n), max) == Ok::<nat, NumberFault>(n),
        number_of(s, max) is Ok ==> number_of(s, max)->Ok_0 <= max && s.len() > 0,
        number_of(s, max) is Ok ==> forall|i: int|
            0 <= i < s.len() ==> is_digit(#[trigger] s[i]) || (i == 0 && s[i] == '+' && s.len()
                > 1),
        s.len() == 0 ==> number_of(s, max) == Err::<nat, NumberFault>(NumberFault::Empty),
{
    if n > max {
        lemma_too_large(n, max);
    } else {
        law_number_reads_back(n, max);
        assert((seq!['+'] + digits(n)).drop_first() =~= digits(n));
    }
    if number_of(s, max) is Ok {
        let t = if s[0] == '+' {
            s.drop_first()
        } else {
            s
        };
        lemma_digits_only(t, max);
        assert forall|i: int| 0 <= i < s.len() implies is_digit(#[trigger] s[i]) || (i == 0
            && s[i] == '+' && s.len() > 1) by {
            if s[0] == '+' {
                if i > 0 {
                    assert(t[i - 1] == s[i]);
                }
            } else {
                assert(t[i] == s[i]);
            }
        }
    }
}

/// A run of characters that has a value holds digits only, and its value is at most `max`.
proof fn lemma_digits_only(s: Seq<char>, max: nat)
    requires
        digits_value(s, max) is Ok,
    ensures
        digits_value(s, max)->Ok_0 <= max,
        forall|i: int| 0 <= i < s.len() ==> is_digit(#[trigger] s[i]),
    decreases s.len(),
{
    if s.len() > 0 {
        lemma_digits_only(s.drop_last(), max);
        assert forall|i: int| 0 <= i < s.len() implies is_digit(#[trigger] s[i]) by {
            if i < s.len() - 1 {
                assert(s.drop_last()[i] == s[i]);
            } else {
                assert(s[i] == s.last());
                assert(digit_value(s.last()) is Some);
            }
        }
    }
}

/// The digits of a number above `max` are too large.
proof fn lemma_too_large(n: nat, max: nat)
    requires
        n > max,
    ensures
        digits_value(digits(n), max) == Err::<nat, NumberFault>(NumberFault::TooLarge),
        digits(n).len() > 0,
        digits(n)[0] != '+',
    decreases n,
{
    reveal_with_fuel(digits_value, 2);
    let s = digits(n);
    if n < 10 {
        assert(s.drop_last() =~= Seq::<char>::empty());
        assert(s.last() == digit(n));
    } else {
        assert(s.drop_last() =~= digits(n / 10));
        assert(s.last() == digit(n % 10));
        assert((n / 10) * 10 + n % 10 == n);
        assert(s[0] == digits(n / 10)[0]);
        if n / 10 > max {
            lemma_too_large(n / 10, max);
        } else {
            law_number_reads_back(n / 10, max);
        }
    }
}

/// `t` is the part of `s` from `i` up to `j`, and around it there is only white space.
pub open spec fn cut_out(s: Seq<char>, t: Seq<char>, i: int, j: int) -> bool {
    &&& 0 <= i <= j <= s.len()
    &&& t == s.subrange(i, j)
    &&& forall|k: int| 0 <= k < i ==> is_space(#[trigger] s[k])
    &&& forall|k: int| j <= k < s.len() ==> is_space(#[trigger] s[k])
}

/// Trimming takes white space off both ends and nothing else: what is left is a piece of the
/// text that neither begins nor ends with white space, and around it there is only white
/// space.
pub proof fn law_trimming_takes_white_space_only(s: Seq<char>)
    ensures
        exists|i: int, j: int| #[trigger] cut_out(s, trimmed(s), i, j),
        trimmed(s).len() > 0 ==> !is_space(trimmed(s)[0]) && !is_space(trimmed(s).last()),
    decreases s.len(),
{
    if s.len() == 0 || (!is_space(s[0]) && !is_space(s.last())) {
        assert(s.subrange(0, s.len() as int) =~= s);
        assert(cut_out(s, trimmed(s), 0, s.len() as int));
    } else if is_space(s[0]) {
        let rest = s.drop_first();
        law_trimming_takes_white_space_only(rest);
        let (i, j) = choose|i: int, j: int| #[trigger] cut_out(rest, trimmed(rest), i, j);
        lemma_cut_out_shifts(s, trimmed(s), i, j);
    } else {
        let rest = s.drop_last();
        law_trimming_takes_white_space_only(rest);
        let (i, j) = choose|i: int, j: int| #[trigger] cut_out(rest, trimmed(rest), i, j);
        lemma_cut_out_stays(s, trimmed(s), i, j);
    }
}

/// With white space before it, a text holds the same piece one place further on.
proof fn lemma_cut_out_shifts(s: Seq<char>, t: Seq<char>, i: int, j: int)
    requires
        s.len() > 0,
        is_space(s[0]),
        cut_out(s.drop_first(), t, i, j),
    ensures
        cut_out(s, t, i + 1, j + 1),
{
    let rest = s.drop_first();
    assert(rest.subrange(i, j) =~= s.subrange(i + 1, j + 1));
    assert forall|k: int| 0 <= k < i + 1 implies is_space(#[trigger] s[k]) by {
        if k > 0 {
            assert(rest[k - 1] == s[k]);
            assert(is_space(rest[k - 1]));
        }
    }
    assert forall|k: int| j + 1 <= k < s.len() implies is_space(#[trigger] s[k]) by {
        assert(rest[k - 1] == s[k]);
        assert(is_space(rest[k - 1]));
    }
}

/// With white space behind it, a text holds the same piece in the same place.
proof fn lemma_cut_out_stays(s: Seq<char>, t: Seq<char>, i: int, j: int)
    requires
        s.len() > 0,
        is_space(s.last()),
        cut_out(s.drop_last(), t, i, j),
    ensures
        cut_out(s, t, i, j),
{
    let rest = s.drop_last();
    assert(rest.subrange(i, j) =~= s.subrange(i, j));
    assert forall|k: int| 0 <= k < i implies is_space(#[trigger] s[k]) by {
        assert(rest[k] == s[k]);
        assert(is_space(rest[k]));
    }
    assert forall|k: int| j <= k < s.len() implies is_space(#[trigger] s[k]) by {
        if k < s.len() - 1 {
            assert(rest[k] == s[k]);
            assert(is_space(rest[k]));
        }
    }
}

/// Blanks, tabs and the ends of lines are white space; letters, digits and signs are not.
pub proof fn law_visible_characters_are_no_white_space(c: char)
    ensures
        0x21 <= c as u32 <= 0x7e ==> !is_space(c),
        c == ' ' || c == '\t' || c == '\n' || c == '\r' ==> is_space(c),
{
}

/// Parts put together again, with the separator between them.
pub open spec fn joined(parts: Seq<Seq<char>>, separator: char) -> Seq<char>
    decreases parts.len(),
{
    if parts.len() == 0 {
        Seq::empty()
    } else if parts.len() == 1 {
        parts[0]
    } else {
        joined(parts.drop_last(), separator) + seq![separator] + parts.last()
    }
}

/// The parts of a text, put together again with the separator between them, are the text, and
/// none of them holds the separator.
pub proof fn law_parts_make_up_the_text(s: Seq<char>, separator: char)
    ensures
        fields(s, separator).len() > 0,
        joined(fields(s, separator), separator) == s,
        forall|i: int, k: int|
            0 <= i < fields(s, separator).len() && 0 <= k < fields(s, separator)[i].len()
                ==> #[trigger] fields(s, separator)[i][k] != separator,
    decreases s.len(),
{
    let all = fields(s, separator);
    if s.len() > 0 {
        let front = fields(s.drop_last(), separator);
        law_parts_make_up_the_text(s.drop_last(), separator);
        let c = s.last();
        assert(s =~= s.drop_last().push(c));
        if c == separator {
            assert(all.drop_last() =~= front);
            assert(joined(front, separator) + seq![separator] + all.last() =~= s);
            assert forall|i: int, k: int|
                0 <= i < all.len() && 0 <= k < all[i].len() implies #[trigger] all[i][k]
                != separator by {
                assert(i < front.len());
                assert(front[i][k] != separator);
            }
        } else {
            assert(all.drop_last() =~= front.drop_last());
            assert(all.last() == front.last().push(c));
            if all.len() == 1 {
                assert(joined(all, separator) =~= s);
            } else {
                assert(joined(all, separator) =~= joined(front, separator).push(c));
            }
            assert forall|i: int, k: int|
                0 <= i < all.len() && 0 <= k < all[i].len() implies #[trigger] all[i][k]
                != separator by {
                if i < front.len() - 1 {
                    assert(front[i][k] != separator);
                } else if k < front.last().len() {
                    assert(front[front.len() - 1][k] != separator);
                }
            }
        }
    }
}

/// A list of numbers reads back as it was written, and a part that is not a number changes
/// nothing about the others.
pub proof fn law_list_reads_back(numbers: Seq<nat>, max: nat, other: Seq<char>)
    requires
        forall|i: int| 0 <= i < numbers.len() ==> #[trigger] numbers[i] <= max,
    ensures
        numbers_among(Seq::new(numbers.len(), |i: int| digits(numbers[i])), max) == numbers,
        number_of(other, max) is Err ==> numbers_among(
            Seq::new(numbers.len(), |i: int| digits(numbers[i])).push(other),
            max,
        ) == numbers,
    decreases numbers.len(),
{
    let parts = Seq::new(numbers.len(), |i: int| digits(numbers[i]));
    if numbers.len() > 0 {
        let front = numbers.drop_last();
        let before = Seq::new(front.len(), |i: int| digits(front[i]));
        law_list_reads_back(front, max, other);
        assert(parts.drop_last() =~= before);
        law_number_reads_back(numbers.last(), max);
        assert(front.push(numbers.last()) =~= numbers);
    } else {
        assert(numbers =~= Seq::<nat>::empty());
    }
    assert(parts.push(other).drop_last() =~= parts);
}

} // verus!
