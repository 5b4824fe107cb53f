use vstd::prelude::*;
use crate::error::{AppError, ParseIntErrorKind, int_error_text};

verus! {

/// True for the characters '0' through '9'.
pub open spec fn is_digit(c: char) -> bool {
    '0' <= c && c <= '9'
}

/// The numeric value of a decimal digit character.
pub open spec fn digit_value(c: char) -> nat {
    (c as nat - '0' as nat) as nat
}

/// Reads the decimal digits `d` onto the running value `acc`, stopping at the first
/// character that is not a digit, or as soon as the value no longer fits in a `usize`.
pub open spec fn read_digits(d: Seq<char>, acc: nat) -> Result<usize, ParseIntErrorKind>
    decreases d.len(),
{
    if d.len() == 0 {
        Ok(acc as usize)
    } else if !is_digit(d[0]) {
        Err(ParseIntErrorKind::InvalidDigit)
    } else if acc * 10 + digit_value(d[0]) > usize::MAX {
        Err(ParseIntErrorKind::PosOverflow)
    } else {
        read_digits(d.drop_first(), acc * 10 + digit_value(d[0]))
    }
}

/// What parsing `s` as a decimal `usize` gives: an optional leading '+', then one or
/// more decimal digits, the value fitting in a `usize`.
pub open spec fn spec_parse_usize(s: Seq<char>) -> Result<usize, ParseIntErrorKind> {
    if s.len() == 0 {
        Err(ParseIntErrorKind::Empty)
    } else if s[0] == '+' {
        if s.len() == 1 {
            Err(ParseIntErrorKind::InvalidDigit)
        } else {
            read_digits(s.drop_first(), 0)
        }
    } else {
        read_digits(s, 0)
    }
}

proof fn lemma_read_digits_step(d: Seq<char>, i: int, acc: nat)
    requires
        0 <= i < d.len(),
        is_digit(d[i]),
        acc * 10 + digit_value(d[i]) <= usize::MAX,
    ensures
        read_digits(d.skip(i), acc) == read_digits(d.skip(i + 1), acc * 10 + digit_value(d[i])),
{
    assert(d.skip(i).drop_first() =~= d.skip(i + 1));
}

/// Reads the characters of `s` from index `start` on as decimal digits.
fn read_digits_from(s: &str, start: usize) -> (r: Result<usize, ParseIntErrorKind>)
    requires
        start <= s@.len(),
    ensures
        r == read_digits(s@.skip(start as int), 0),
{
    let n = s.unicode_len();
    let mut acc: usize = 0;
    let mut i = start;
    while i < n
        invariant
            start <= i <= n,
            n == s@.len(),
            read_digits(s@.skip(start as int), 0) == read_digits(s@.skip(i as int), acc as nat),
        decreases n - i,
    {
        let c = s.get_char(i);
        if !('0' <= c && c <= '9') {
            assert(s@.skip(i as int)[0] == c);
            return Err(ParseIntErrorKind::InvalidDigit);
        }
        let d = (c as u32 - '0' as u32) as usize;
        assert(d == digit_value(c));
        if acc > (usize::MAX - d) / 10 {
            assert(acc * 10 + d > usize::MAX) by (nonlinear_arith)
                requires acc > (usize::MAX - d) / 10, d <= 9;
            assert(s@.skip(i as int)[0] == c);
            return Err(ParseIntErrorKind::PosOverflow);
        }
        assert(acc * 10 + d <= usize::MAX) by (nonlinear_arith)
            requires acc <= (usize::MAX - d) / 10, d <= 9;
        proof {
            lemma_read_digits_step(s@, i as int, acc as nat);
        }
        acc = acc * 10 + d;
        i = i + 1;
    }
    assert(s@.skip(i as int).len() == 0);
    Ok(acc)
}

/// Parses a decimal `usize`, as `str::parse::<usize>` does.
pub fn parse_usize(s: &str) -> (r: Result<usize, ParseIntErrorKind>)
    ensures
        r == spec_parse_usize(s@),
{
    let n = s.unicode_len();
    if n == 0 {
        return Err(ParseIntErrorKind::Empty);
    }
    if s.get_char(0) == '+' {
        if n == 1 {
            return Err(ParseIntErrorKind::InvalidDigit);
        }
        assert(s@.skip(1) =~= s@.drop_first());
        read_digits_from(s, 1)
    } else {
        assert(s@.skip(0) =~= s@);
        read_digits_from(s, 0)
    }
}


/// The views of a list of strings.
pub open spec fn views(v: Seq<String>) -> Seq<Seq<char>> {
    v.map_values(|s: String| s@)
}

/// Applies `f` to each string in order; the first failure is the result.
pub open spec fn parse_each<T>(
    ss: Seq<Seq<char>>,
    f: spec_fn(Seq<char>) -> Result<T, ParseIntErrorKind>,
) -> Result<Seq<T>, ParseIntErrorKind>
    decreases ss.len(),
{
    if ss.len() == 0 {
        Ok(Seq::empty())
    } else {
        match f(ss[0]) {
            Err(k) => Err(k),
            Ok(x) => match parse_each(ss.drop_first(), f) {
                Err(k) => Err(k),
                Ok(xs) => Ok(seq![x] + xs),
            },
        }
    }
}

proof fn lemma_parse_each_prefix<T>(
    ss: Seq<Seq<char>>,
    f: spec_fn(Seq<char>) -> Result<T, ParseIntErrorKind>,
    i: int,
    done: Seq<T>,
)
    requires
        0 <= i < ss.len(),
        done.len() == i,
        forall|j: int| 0 <= j < i ==> f(ss[j]) == Ok::<T, ParseIntErrorKind>(#[trigger] done[j]),
    ensures
        f(ss[i]) is Ok ==> parse_each(ss.skip(i), f) == (match parse_each(ss.skip(i + 1), f) {
            Err(k) => Err(k),
            Ok(xs) => Ok(seq![f(ss[i])->Ok_0] + xs),
        }),
        f(ss[i]) matches Err(k) ==> parse_each(ss.skip(i), f) == Err::<Seq<T>, ParseIntErrorKind>(k),
{
    assert(ss.skip(i)[0] == ss[i]);
    assert(ss.skip(i).drop_first() =~= ss.skip(i + 1));
}

/// `parse_each` over the whole list agrees with the result read off from index `i` on,
/// once the first `i` strings are known to parse to `done`.
proof fn lemma_parse_each_split<T>(
    ss: Seq<Seq<char>>,
    f: spec_fn(Seq<char>) -> Result<T, ParseIntErrorKind>,
    i: int,
    done: Seq<T>,
)
    requires
        0 <= i <= ss.len(),
        done.len() == i,
        forall|j: int| 0 <= j < i ==> f(ss[j]) == Ok::<T, ParseIntErrorKind>(#[trigger] done[j]),
    ensures
        parse_each(ss, f) == (match parse_each(ss.skip(i), f) {
            Err(k) => Err(k),
            Ok(xs) => Ok(done + xs),
        }),
    decreases i,
{
    if i == 0 {
        assert(ss.skip(0) =~= ss);
        assert(done =~= Seq::<T>::empty());
        match parse_each(ss, f) {
            Err(_) => {},
            Ok(xs) => { assert(done + xs =~= xs); },
        }
    } else {
        let d0 = done.drop_last();
        assert forall|j: int| 0 <= j < i - 1 implies f(ss[j]) == Ok::<T, ParseIntErrorKind>(#[trigger] d0[j]) by {
            assert(d0[j] == done[j]);
        }
        lemma_parse_each_split(ss, f, i - 1, d0);
        lemma_parse_each_prefix(ss, f, i - 1, d0);
        assert(f(ss[i - 1]) == Ok::<T, ParseIntErrorKind>(done[i - 1]));
        match parse_each(ss.skip(i), f) {
            Err(_) => {},
            Ok(xs) => {
                assert(d0 + (seq![done[i - 1]] + xs) =~= done + xs);
            },
        }
    }
}

/// `spec_parse_usize` as a function value.
pub open spec fn usize_parser() -> spec_fn(Seq<char>) -> Result<usize, ParseIntErrorKind> {
    |s: Seq<char>| spec_parse_usize(s)
}

/// `spec_parse_breakpoint_number` as a function value.
pub open spec fn breakpoint_parser() -> spec_fn(Seq<char>) -> Result<BreakPointNumber, ParseIntErrorKind> {
    |s: Seq<char>| spec_parse_breakpoint_number(s)
}

/// A breakpoint number as GDB prints it: `major` or `major.minor`.
#[derive(Clone, Copy, Debug, PartialEq, Eq, Structural)]
pub struct BreakPointNumber {
    pub major: usize,
    pub minor: Option<usize>,
}

/// The index of the first `c` in `s`, or -1 where there is none.
pub open spec fn first_index_of(s: Seq<char>, c: char) -> int
    decreases s.len(),
{
    if s.len() == 0 {
        -1
    } else if s[0] == c {
        0
    } else {
        let r = first_index_of(s.drop_first(), c);
        if r < 0 { -1 } else { r + 1 }
    }
}

proof fn lemma_first_index_of(s: Seq<char>, c: char, i: int)
    requires
        0 <= i <= s.len(),
        forall|j: int| 0 <= j < i ==> s[j] != c,
    ensures
        i < s.len() && s[i] == c ==> first_index_of(s, c) == i,
        i == s.len() ==> first_index_of(s, c) == -1,
    decreases i,
{
    if i > 0 {
        lemma_first_index_of(s.drop_first(), c, i - 1);
    }
}

/// What parsing `s` as a breakpoint number gives: split at the first '.', both sides
/// decimal; without a '.', the whole text is the major number.
pub open spec fn spec_parse_breakpoint_number(s: Seq<char>) -> Result<BreakPointNumber, ParseIntErrorKind> {
    let dot = first_index_of(s, '.');
    if dot < 0 {
        match spec_parse_usize(s) {
            Ok(major) => Ok(BreakPointNumber { major, minor: None }),
            Err(k) => Err(k),
        }
    } else {
        match spec_parse_usize(s.take(dot)) {
            Err(k) => Err(k),
            Ok(major) => match spec_parse_usize(s.skip(dot + 1)) {
                Err(k) => Err(k),
                Ok(minor) => Ok(BreakPointNumber { major, minor: Some(minor) }),
            },
        }
    }
}

impl BreakPointNumber {
    /// Parses `major` or `major.minor`.
    pub fn parse(s: &str) -> (r: Result<BreakPointNumber, ParseIntErrorKind>)
        ensures
            r == spec_parse_breakpoint_number(s@),
    {
        let n = s.unicode_len();
        let mut i: usize = 0;
        while i < n
            invariant
                i <= n,
                n == s@.len(),
                forall|j: int| 0 <= j < i ==> s@[j] != '.',
            ensures
                i <= n,
                i < n ==> s@[i as int] == '.',
                forall|j: int| 0 <= j < i ==> s@[j] != '.',
            decreases n - i,
        {
            if s.get_char(i) == '.' {
                break;
            }
            i = i + 1;
        }
        proof {
            lemma_first_index_of(s@, '.', i as int);
        }
        if i == n {
            match parse_usize(s) {
                Ok(major) => Ok(BreakPointNumber { major, minor: None }),
                Err(k) => Err(k),
            }
        } else {
            let head = s.substring_char(0, i);
            let tail = s.substring_char(i + 1, n);
            assert(head@ =~= s@.take(i as int));
            assert(tail@ =~= s@.skip(i + 1));
            match parse_usize(head) {
                Err(k) => Err(k),
                Ok(major) => match parse_usize(tail) {
                    Err(k) => Err(k),
                    Ok(minor) => Ok(BreakPointNumber { major, minor: Some(minor) }),
                },
            }
        }
    }
}

/// Parses each breakpoint number in `numbers`; the first one that fails to parse
/// decides the error, which carries the integer parser's message.
pub fn parse_breakpoint_numbers(numbers: &Vec<String>) -> (r: Result<Vec<BreakPointNumber>, AppError>)
    ensures
        match parse_each(views(numbers@), breakpoint_parser()) {
            Ok(bs) => r matches Ok(v) && v@ == bs,
            Err(k) => r matches Err(AppError::ParseJsonError(m)) && m@ == int_error_text(k),
        },
{
    let ghost ss = views(numbers@);
    let ghost f = breakpoint_parser();
    let mut out: Vec<BreakPointNumber> = Vec::new();
    let mut i: usize = 0;
    while i < numbers.len()
        invariant
            i <= numbers.len(),
            ss == views(numbers@),
            ss.len() == numbers.len(),
            f == breakpoint_parser(),
            out@.len() == i,
            forall|j: int| 0 <= j < i ==> f(ss[j]) == Ok::<BreakPointNumber, ParseIntErrorKind>(#[trigger] out@[j]),
        decreases numbers.len() - i,
    {
        let parsed = BreakPointNumber::parse(numbers[i].as_str());
        proof {
            lemma_parse_each_split(ss, f, i as int, out@);
            lemma_parse_each_prefix(ss, f, i as int, out@);
        }
        match parsed {
            Err(k) => {
                return Err(AppError::ParseJsonError(k.message()));
            },
            Ok(b) => {
                out.push(b);
            },
        }
        i = i + 1;
    }
    proof {
        lemma_parse_each_split(ss, f, i as int, out@);
        assert(ss.skip(i as int).len() == 0);
        assert(out@ + Seq::<BreakPointNumber>::empty() =~= out@);
    }
    Ok(out)
}

/// Parses an optional list of register numbers; the first entry that fails to parse
/// decides the error.
pub fn parse_register_list(reg_list: &Option<Vec<String>>) -> (r: Result<Option<Vec<usize>>, AppError>)
    ensures
        match reg_list {
            None => r matches Ok(None),
            Some(list) => match parse_each(views(list@), usize_parser()) {
                Ok(ns) => r matches Ok(Some(v)) && v@ == ns,
                Err(k) => r matches Err(AppError::ParseIntError(e)) && e == k,
            },
        },
{
    match reg_list {
        None => Ok(None),
        Some(list) => {
            let ghost ss = views(list@);
            let ghost f = usize_parser();
            let mut out: Vec<usize> = Vec::new();
            let mut i: usize = 0;
            while i < list.len()
                invariant
                    i <= list.len(),
                    *reg_list == Some(*list),
                    ss == views(list@),
                    ss.len() == list.len(),
                    f == usize_parser(),
                    out@.len() == i,
                    forall|j: int| 0 <= j < i ==> f(ss[j]) == Ok::<usize, ParseIntErrorKind>(#[trigger] out@[j]),
                decreases list.len() - i,
            {
                let parsed = parse_usize(list[i].as_str());
                proof {
                    lemma_parse_each_split(ss, f, i as int, out@);
                    lemma_parse_each_prefix(ss, f, i as int, out@);
                }
                match parsed {
                    Err(k) => {
                        return Err(AppError::ParseIntError(k));
                    },
                    Ok(n) => {
                        out.push(n);
                    },
                }
                i = i + 1;
            }
            proof {
                lemma_parse_each_split(ss, f, i as int, out@);
                assert(ss.skip(i as int).len() == 0);
                assert(out@ + Seq::<usize>::empty() =~= out@);
            }
            Ok(Some(out))
        },
    }
}

} // verus!
