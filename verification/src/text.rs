//! Reading numbers and moves from a line of text.

use vstd::prelude::*;

verus! {

/// Whether `c` is one of the ten decimal digits.
pub open spec fn is_digit(c: char) -> bool {
    '0' <= c <= '9'
}

/// The value of the decimal digit `c`.
pub open spec fn digit_value(c: char) -> nat
    recommends
        is_digit(c),
{
    (c as int - '0' as int) as nat
}

/// Whether `s` is a non-empty run of decimal digits.
pub open spec fn is_digits(s: Seq<char>) -> bool {
    s.len() > 0 && forall|i: int| 0 <= i < s.len() ==> is_digit(#[trigger] s[i])
}

/// The number that the digits `s` write in base ten.
pub open spec fn decimal(s: Seq<char>) -> nat
    decreases s.len(),
{
    if s.len() == 0 {
        0
    } else {
        10 * decimal(s.drop_last()) + digit_value(s.last())
    }
}

/// `s` without the plus sign that it may start with.
pub open spec fn unsigned(s: Seq<char>) -> Seq<char> {
    if s.len() > 0 && s[0] == '+' {
        s.drop_first()
    } else {
        s
    }
}

/// The number that `s` writes: decimal digits, at least one, after an
/// optional plus sign, and of a value that a `usize` holds. Anything else
/// writes no number.
pub open spec fn number(s: Seq<char>) -> Option<usize> {
    let d = unsigned(s);
    if is_digits(d) && decimal(d) <= usize::MAX {
        Some(decimal(d) as usize)
    } else {
        None
    }
}

/// Digits written after a number do not make it smaller.
proof fn lemma_decimal_prefix(s: Seq<char>, n: int)
    requires
        0 <= n <= s.len(),
    ensures
        decimal(s.subrange(0, n)) <= decimal(s),
    decreases s.len(),
{
    if n < s.len() {
        lemma_decimal_prefix(s.drop_last(), n);
        assert(s.drop_last().subrange(0, n) =~= s.subrange(0, n));
    } else {
        assert(s.subrange(0, n) =~= s);
    }
}

/// The number written by the characters of `chars` from `from` up to `to`.
pub fn number_in(chars: &[char], from: usize, to: usize) -> (res: Option<usize>)
    requires
        from <= to <= chars.len(),
    ensures
        res == number(chars@.subrange(from as int, to as int)),
{
    let ghost s = chars@.subrange(from as int, to as int);
    let mut i: usize = from;
    if i < to && chars[i] == '+' {
        i += 1;
    }
    let ghost d = unsigned(s);
    let first: usize = i;
    if i == to {
        return None;
    }
    let mut acc: usize = 0;
    while i < to
        invariant
            from <= first <= i <= to <= chars.len(),
            d == unsigned(chars@.subrange(from as int, to as int)),
            d == chars@.subrange(first as int, to as int),
            forall|j: int| 0 <= j < i - first ==> is_digit(#[trigger] d[j]),
            acc == decimal(d.subrange(0, i - first)),
        decreases to - i,
    {
        let c = chars[i];
        if !('0' <= c && c <= '9') {
            assert(!is_digit(d[i - first]));
            return None;
        }
        let v: usize = (c as u32 - '0' as u32) as usize;
        proof {
            assert(d.subrange(0, i - first + 1).drop_last() =~= d.subrange(0, i - first));
            lemma_decimal_prefix(d, i - first + 1);
        }
        if acc > (usize::MAX - v) / 10 {
            return None;
        }
        acc = 10 * acc + v;
        i += 1;
    }
    assert(d.subrange(0, i - first) =~= d);
    Some(acc)
}

/// The characters of `text`, in order.
pub fn chars_of(text: &str) -> (chars: Vec<char>)
    ensures
        chars@ == text@,
{
    let mut chars: Vec<char> = Vec::new();
    for c in rest: text.chars()
        invariant
            rest.seq() == text@,
            chars@ == text@.subrange(0, rest.index() as int),
    {
        chars.push(c);
    }
    chars
}

/// The number that `text` writes, if it writes one.
pub fn parse_number(text: &str) -> (res: Option<usize>)
    ensures
        res == number(text@),
{
    let chars = chars_of(text);
    assert(chars@.subrange(0, chars@.len() as int) =~= text@);
    number_in(chars.as_slice(), 0, chars.len())
}

/// The number of characters of `s` before its first space, or all of them
/// if it has no space.
pub open spec fn field_len(s: Seq<char>) -> nat
    decreases s.len(),
{
    if s.len() == 0 || s[0] == ' ' {
        0
    } else {
        1 + field_len(s.drop_first())
    }
}

/// The fields of `s`: the pieces into which its spaces cut it, one more
/// than it has spaces, empty ones among them where two spaces meet or one
/// stands at an end.
pub open spec fn fields(s: Seq<char>) -> Seq<Seq<char>>
    decreases s.len(),
{
    let n = field_len(s) as int;
    if n >= s.len() {
        seq![s]
    } else {
        seq![s.take(n)] + fields(s.skip(n + 1))
    }
}

/// What the fields of `fs` that are not empty write, in order: for each of
/// them the number it writes, or `None` where it writes no number. Empty
/// fields are passed over, so that more than one space may part two fields.
pub open spec fn readings(fs: Seq<Seq<char>>) -> Seq<Option<usize>>
    decreases fs.len(),
{
    if fs.len() == 0 {
        Seq::empty()
    } else {
        let rest = readings(fs.drop_first());
        if fs[0].len() == 0 {
            rest
        } else {
            seq![number(fs[0])] + rest
        }
    }
}

/// A run without a space that ends at a space, or at the end, is a field.
proof fn lemma_field_len(s: Seq<char>, from: int, end: int)
    requires
        0 <= from <= end <= s.len(),
        forall|j: int| from <= j < end ==> s[j] != ' ',
        end == s.len() || s[end] == ' ',
    ensures
        field_len(s.skip(from)) == end - from,
    decreases end - from,
{
    if from < end {
        lemma_field_len(s, from + 1, end);
        assert(s.skip(from).drop_first() =~= s.skip(from + 1));
    }
}

/// What the fields that are not empty write, among the fields of the
/// characters of `chars` from `from` up to `to`.
pub fn readings_in(chars: &[char], from: usize, to: usize) -> (out: Vec<Option<usize>>)
    requires
        from <= to <= chars.len(),
    ensures
        out@ == readings(fields(chars@.subrange(from as int, to as int))),
{
    let ghost all = chars@.subrange(from as int, to as int);
    let mut out: Vec<Option<usize>> = Vec::new();
    let mut start: usize = from;
    loop
        invariant
            from <= start <= to <= chars.len(),
            all == chars@.subrange(from as int, to as int),
            readings(fields(all)) == out@ + readings(
                fields(chars@.subrange(start as int, to as int)),
            ),
        decreases to - start,
    {
        let ghost s = chars@.subrange(start as int, to as int);
        let mut end: usize = start;
        while end < to && chars[end] != ' '
            invariant
                start <= end <= to <= chars.len(),
                forall|j: int| start <= j < end ==> chars@[j] != ' ',
            decreases to - end,
        {
            end += 1;
        }
        proof {
            lemma_field_len(s, 0, end - start);
            assert(s.skip(0) =~= s);
            assert(s.take(end - start) =~= chars@.subrange(start as int, end as int));
            if end < to {
                let rest = fields(s.skip(end - start + 1));
                assert(s.skip(end - start + 1) =~= chars@.subrange(end + 1, to as int));
                assert(fields(s).drop_first() =~= rest);
            }
        }
        let ghost sofar = out@;
        if start < end {
            let found = number_in(chars, start, end);
            out.push(found);
            assert(out@ + readings(fields(s).drop_first()) =~= sofar + (seq![found] + readings(
                fields(s).drop_first(),
            )));
        }
        if end == to {
            return out;
        }
        start = end + 1;
    }
}

/// Whether `c` is white space: one of the twenty-five characters that
/// Unicode marks White_Space.
pub open spec fn white_space(c: char) -> bool {
    ||| '\u{9}' <= c <= '\u{d}'
    ||| c == ' '
    ||| c == '\u{85}'
    ||| c == '\u{a0}'
    ||| c == '\u{1680}'
    ||| '\u{2000}' <= c <= '\u{200a}'
    ||| c == '\u{2028}'
    ||| c == '\u{2029}'
    ||| c == '\u{202f}'
    ||| c == '\u{205f}'
    ||| c == '\u{3000}'
}

/// Asks `char::is_whitespace` whether `c` is white space. That function
/// answers `true` for the characters that Unicode marks White_Space and
/// for no other; the contract names them one by one.
#[verifier::external_body]
fn is_whitespace(c: char) -> (b: bool)
    ensures
        b == white_space(c),
{
    c.is_whitespace()
}

/// `s` without the white space that it starts with.
pub open spec fn trim_start(s: Seq<char>) -> Seq<char>
    decreases s.len(),
{
    if s.len() > 0 && white_space(s[0]) {
        trim_start(s.drop_first())
    } else {
        s
    }
}

/// `s` without the white space that it ends with.
pub open spec fn trim_end(s: Seq<char>) -> Seq<char>
    decreases s.len(),
{
    if s.len() > 0 && white_space(s.last()) {
        trim_end(s.drop_last())
    } else {
        s
    }
}

/// `s` without the white space at its two ends.
pub open spec fn trim(s: Seq<char>) -> Seq<char> {
    trim_end(trim_start(s))
}

/// Where `chars` without the white space at its two ends starts and stops.
fn trim_bounds(chars: &[char]) -> (res: (usize, usize))
    ensures
        res.0 <= res.1 <= chars.len(),
        chars@.subrange(res.0 as int, res.1 as int) == trim(chars@),
{
    let len: usize = chars.len();
    let mut from: usize = 0;
    assert(chars@.subrange(0, len as int) =~= chars@);
    while from < len && is_whitespace(chars[from])
        invariant
            from <= len == chars.len(),
            trim_start(chars@) == trim_start(chars@.subrange(from as int, len as int)),
        decreases len - from,
    {
        assert(chars@.subrange(from as int, len as int).drop_first() =~= chars@.subrange(
            from + 1,
            len as int,
        ));
        from += 1;
    }
    let mut to: usize = len;
    while to > from && is_whitespace(chars[to - 1])
        invariant
            from <= to <= len == chars.len(),
            trim(chars@) == trim_end(chars@.subrange(from as int, to as int)),
        decreases to - from,
    {
        assert(chars@.subrange(from as int, to as int).drop_last() =~= chars@.subrange(
            from as int,
            to - 1,
        ));
        to -= 1;
    }
    (from, to)
}

/// The move that `line` asks for. Without the white space at its ends the
/// line is to hold two numbers, the row and then the column, with one space
/// or more between them, and nothing else. Any other line asks for no move.
pub open spec fn move_in(line: Seq<char>) -> Option<(usize, usize)> {
    let found = readings(fields(trim(line)));
    if found.len() == 2 {
        match (found[0], found[1]) {
            (Some(row), Some(col)) => Some((row, col)),
            _ => None,
        }
    } else {
        None
    }
}

/// What a number is written with is neither a space nor other white space.
proof fn lemma_number_chars(s: Seq<char>)
    requires
        number(s) is Some,
    ensures
        s.len() > 0,
        forall|k: int| 0 <= k < s.len() ==> s[k] != ' ' && !white_space(#[trigger] s[k]),
{
    let d = unsigned(s);
    assert forall|k: int| 0 <= k < s.len() implies s[k] != ' ' && !white_space(
        #[trigger] s[k],
    ) by {
        // After a plus sign the digits stand one place further on.
        if d.len() < s.len() && k > 0 {
            assert(is_digit(d[k - 1]));
        }
    }
}

/// A field ends at the first space, or at the end where there is no space.
proof fn lemma_field_len_bounds(s: Seq<char>)
    ensures
        field_len(s) <= s.len(),
        forall|k: int| 0 <= k < field_len(s) ==> s[k] != ' ',
        field_len(s) < s.len() ==> s[field_len(s) as int] == ' ',
    decreases s.len(),
{
    if s.len() > 0 && s[0] != ' ' {
        lemma_field_len_bounds(s.drop_first());
        assert forall|k: int| 0 <= k < field_len(s) implies s[k] != ' ' by {
            if k > 0 {
                assert(s[k] == s.drop_first()[k - 1]);
            }
        }
    }
}

/// What is left of `s` without the white space at its ends neither starts
/// nor ends with white space.
proof fn lemma_trim_ends(s: Seq<char>)
    ensures
        trim(s).len() > 0 ==> !white_space(trim(s)[0]) && !white_space(trim(s).last()),
{
    lemma_trim_start_first(s);
    lemma_trim_end_last(trim_start(s));
}

/// `trim_start` stops at a character that is no white space.
proof fn lemma_trim_start_first(s: Seq<char>)
    ensures
        trim_start(s).len() > 0 ==> !white_space(trim_start(s)[0]),
    decreases s.len(),
{
    if s.len() > 0 && white_space(s[0]) {
        lemma_trim_start_first(s.drop_first());
    }
}

/// `trim_end` stops at a character that is no white space, and leaves the
/// start of what it is given as it was.
proof fn lemma_trim_end_last(s: Seq<char>)
    ensures
        trim_end(s).len() > 0 ==> !white_space(trim_end(s).last()) && trim_end(s)[0] == s[0],
    decreases s.len(),
{
    if s.len() > 0 && white_space(s.last()) {
        lemma_trim_end_last(s.drop_last());
    }
}

/// Text that does not end with a space has a field that is not empty.
proof fn lemma_some_reading(s: Seq<char>)
    requires
        s.len() > 0,
        s.last() != ' ',
    ensures
        readings(fields(s)).len() >= 1,
    decreases s.len(),
{
    lemma_field_len_bounds(s);
    let n = field_len(s) as int;
    if n < s.len() {
        let rest = s.skip(n + 1);
        lemma_some_reading(rest);
        assert(fields(s).drop_first() =~= fields(rest));
    }
}

/// Text that does not end with a space and has one field that is not empty
/// is that field after a run of spaces. The result is where the field
/// starts.
proof fn lemma_one_reading(s: Seq<char>) -> (at: int)
    requires
        s.len() > 0,
        s.last() != ' ',
        readings(fields(s)).len() == 1,
    ensures
        0 <= at < s.len(),
        forall|k: int| 0 <= k < at ==> s[k] == ' ',
        readings(fields(s)) == seq![number(s.skip(at))],
    decreases s.len(),
{
    lemma_field_len_bounds(s);
    let n = field_len(s) as int;
    if n >= s.len() {
        assert(s.skip(0) =~= s);
        0
    } else {
        let rest = s.skip(n + 1);
        assert(fields(s).drop_first() =~= fields(rest));
        if n == 0 {
            let at = lemma_one_reading(rest);
            assert(rest.skip(at) =~= s.skip(at + 1));
            assert forall|k: int| 0 <= k < at + 1 implies s[k] == ' ' by {
                if k > 0 {
                    assert(s[k] == rest[k - 1]);
                }
            }
            at + 1
        } else {
            // A first field that is not empty, and another after it: there
            // would be two.
            lemma_some_reading(rest);
            0
        }
    }
}

/// Two numbers with a space between them ask for a move: the first is the
/// row and the second the column.
pub proof fn lemma_two_numbers_ask_for_a_move(first: Seq<char>, second: Seq<char>)
    requires
        number(first) is Some,
        number(second) is Some,
    ensures
        move_in(first + seq![' '] + second) == Some((number(first)->0, number(second)->0)),
{
    let s = first + seq![' '] + second;
    lemma_number_chars(first);
    lemma_number_chars(second);
    lemma_field_len(s, 0, first.len() as int);
    assert(s.skip(0) =~= s);
    assert(s.take(first.len() as int) =~= first);
    assert(s.skip(first.len() as int + 1) =~= second);
    lemma_field_len(second, 0, second.len() as int);
    assert(second.skip(0) =~= second);
    assert(fields(second) =~= seq![second]);
    reveal_with_fuel(readings, 3);
}

/// A line asks for a move only where, without the white space at its ends,
/// it is a number, a run of one space or more, and a number, and nothing
/// else: the first number is the row and the second the column. The result
/// is where the run of spaces starts and stops.
pub proof fn lemma_move_is_two_numbers(line: Seq<char>, row: usize, col: usize) -> (gap: (
    int,
    int,
))
    requires
        move_in(line) == Some((row, col)),
    ensures
        0 < gap.0 < gap.1 < trim(line).len(),
        forall|k: int| gap.0 <= k < gap.1 ==> trim(line)[k] == ' ',
        number(trim(line).take(gap.0)) == Some(row),
        number(trim(line).skip(gap.1)) == Some(col),
{
    let t = trim(line);
    lemma_trim_ends(line);
    lemma_field_len_bounds(t);
    let n = field_len(t) as int;
    if t.len() == 0 || n >= t.len() {
        // One field only, which writes no two numbers.
        assert(readings(fields(t).drop_first()).len() == 0);
    }
    // The first field is not empty, as the line does not start with a
    // space; so what follows it holds the one other field that is not.
    let rest = t.skip(n + 1);
    assert(fields(t).drop_first() =~= fields(rest));
    let at = lemma_one_reading(rest);
    assert(rest.skip(at) =~= t.skip(n + 1 + at));
    assert forall|k: int| n <= k < n + 1 + at implies t[k] == ' ' by {
        if k > n {
            assert(t[k] == rest[k - n - 1]);
        }
    }
    (n, n + 1 + at)
}

/// The move that `line` asks for, as row and column, if it asks for one.
pub fn parse_move(line: &str) -> (res: Option<(usize, usize)>)
    ensures
        res == move_in(line@),
{
    let chars = chars_of(line);
    let (from, to) = trim_bounds(chars.as_slice());
    let found = readings_in(chars.as_slice(), from, to);
    if found.len() == 2 {
        match (found[0], found[1]) {
            (Some(row), Some(col)) => Some((row, col)),
            _ => None,
        }
    } else {
        None
    }
}

} // verus!
