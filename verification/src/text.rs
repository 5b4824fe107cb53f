use vstd::prelude::*;
use vstd::utf8::{valid_utf8, decode_utf8};

verus! {

/// Appends one character: `String::push`, which std documents as appending the given
/// char to the end of the string.
#[verifier::external_body]
pub fn push_char(s: &mut String, c: char)
    ensures
        final(s)@ == old(s)@.push(c),
{
    s.push(c);
}

/// Decodes UTF-8 through `std::str::from_utf8`, which std documents as succeeding exactly
/// when the bytes are valid UTF-8; the decoded text is then copied into a `String`.
#[verifier::external_body]
pub fn utf8_to_string(bytes: &[u8]) -> (r: Option<String>)
    ensures
        r is Some <==> valid_utf8(bytes@),
        r matches Some(s) ==> s@ == decode_utf8(bytes@),
{
    match std::str::from_utf8(bytes) {
        Ok(s) => Some(s.to_string()),
        Err(_) => None,
    }
}

/// `n` spaces.
pub open spec fn spaces(n: nat) -> Seq<char> {
    Seq::new(n, |i: int| ' ')
}

/// `s` padded on the right with spaces to at least `width` characters, as `{:width$}`
/// formats a string.
pub open spec fn pad_right(s: Seq<char>, width: nat) -> Seq<char> {
    if s.len() >= width { s } else { s + spaces((width - s.len()) as nat) }
}

/// Appends `n` spaces.
pub fn push_spaces(out: &mut String, n: usize)
    ensures
        final(out)@ == old(out)@ + spaces(n as nat),
{
    let ghost start = out@;
    let mut k: usize = 0;
    while k < n
        invariant
            k <= n,
            out@ == start + spaces(k as nat),
        decreases n - k,
    {
        push_char(out, ' ');
        k = k + 1;
        assert(out@ =~= start + spaces(k as nat));
    }
}

/// Whether two strings hold the same characters.
pub fn str_eq(a: &str, b: &str) -> (r: bool)
    ensures
        r == (a@ == b@),
{
    let n = a.unicode_len();
    if n != b.unicode_len() {
        return false;
    }
    let mut i: usize = 0;
    while i < n
        invariant
            i <= n,
            n == a@.len(),
            n == b@.len(),
            forall|j: int| 0 <= j < i ==> a@[j] == b@[j],
        decreases n - i,
    {
        if a.get_char(i) != b.get_char(i) {
            return false;
        }
        i = i + 1;
    }
    assert(a@ =~= b@);
    true
}

/// The lower-case hexadecimal digit for a value below 16.
pub open spec fn hex_digit(d: nat) -> char {
    if d < 10 {
        (('0' as nat) + d) as char
    } else {
        (('a' as nat) + d - 10) as char
    }
}

/// The lower-case hexadecimal digits of `n`, most significant first, without leading
/// zeros (zero itself is "0").
pub open spec fn hex_digits(n: nat) -> Seq<char>
    decreases n,
{
    if n < 16 {
        seq![hex_digit(n)]
    } else {
        hex_digits(n / 16).push(hex_digit(n % 16))
    }
}

/// `n` in lower-case hexadecimal, padded on the left with '0' to at least `width`
/// characters, as `{:0width$x}` formats it.
pub open spec fn hex_pad(n: nat, width: nat) -> Seq<char> {
    let d = hex_digits(n);
    if d.len() >= width {
        d
    } else {
        Seq::new((width - d.len()) as nat, |i: int| '0') + d
    }
}

fn hex_digit_char(d: u64) -> (c: char)
    requires
        d < 16,
    ensures
        c == hex_digit(d as nat),
{
    let table: [char; 16] = ['0', '1', '2', '3', '4', '5', '6', '7', '8', '9', 'a', 'b', 'c', 'd', 'e', 'f'];
    let c = table[d as usize];
    assert(c == hex_digit(d as nat)) by {
        assert(table@ =~= seq!['0', '1', '2', '3', '4', '5', '6', '7', '8', '9', 'a', 'b', 'c', 'd', 'e', 'f']);
    }
    c
}

/// Appends `n` in lower-case hexadecimal, zero-padded to at least `width` digits.
pub fn push_hex(out: &mut String, n: u64, width: usize)
    ensures
        final(out)@ == old(out)@ + hex_pad(n as nat, width as nat),
{
    let mut m: u64 = n;
    let mut digits: Vec<char> = Vec::new();
    while m >= 16
        invariant
            hex_digits(n as nat) == hex_digits(m as nat) + digits@,
        decreases m,
    {
        let c = hex_digit_char(m % 16);
        assert(hex_digits(m as nat) == hex_digits((m / 16) as nat).push(hex_digit((m % 16) as nat)));
        digits.insert(0, c);
        assert(hex_digits(n as nat) =~= hex_digits((m / 16) as nat) + digits@);
        m = m / 16;
    }
    let c = hex_digit_char(m);
    digits.insert(0, c);
    assert(hex_digits(n as nat) =~= digits@);
    let len = digits.len();
    let ghost start = out@;
    if len < width {
        let mut k: usize = 0;
        while k < width - len
            invariant
                len < width,
                k <= width - len,
                out@ == start + Seq::new(k as nat, |i: int| '0'),
            decreases width - len - k,
        {
            push_char(out, '0');
            k = k + 1;
            assert(out@ =~= start + Seq::new(k as nat, |i: int| '0'));
        }
    }
    let ghost padded = out@;
    let mut i: usize = 0;
    while i < len
        invariant
            len == digits@.len(),
            i <= len,
            out@ == padded + digits@.take(i as int),
        decreases len - i,
    {
        push_char(out, digits[i]);
        i = i + 1;
        assert(out@ =~= padded + digits@.take(i as int));
    }
    assert(digits@.take(len as int) =~= digits@);
    assert(out@ =~= old(out)@ + hex_pad(n as nat, width as nat));
}

/// The decimal digits of `n`, most significant first, without leading zeros.
pub open spec fn dec_digits(n: nat) -> Seq<char>
    decreases n,
{
    if n < 10 {
        seq![(('0' as nat) + n) as char]
    } else {
        dec_digits(n / 10).push((('0' as nat) + n % 10) as char)
    }
}

/// Appends `n` in decimal.
pub fn push_decimal(out: &mut String, n: u64)
    ensures
        final(out)@ == old(out)@ + dec_digits(n as nat),
{
    let mut m: u64 = n;
    let mut digits: Vec<char> = Vec::new();
    while m >= 10
        invariant
            dec_digits(n as nat) == dec_digits(m as nat) + digits@,
        decreases m,
    {
        let c = char_of_digit(m % 10);
        assert(dec_digits(m as nat) == dec_digits((m / 10) as nat).push((('0' as nat) + (m % 10) as nat) as char));
        digits.insert(0, c);
        assert(dec_digits(n as nat) =~= dec_digits((m / 10) as nat) + digits@);
        m = m / 10;
    }
    let c = char_of_digit(m);
    digits.insert(0, c);
    assert(dec_digits(n as nat) =~= digits@);
    let ghost start = out@;
    let len = digits.len();
    let mut i: usize = 0;
    while i < len
        invariant
            len == digits@.len(),
            i <= len,
            out@ == start + digits@.take(i as int),
        decreases len - i,
    {
        push_char(out, digits[i]);
        i = i + 1;
        assert(out@ =~= start + digits@.take(i as int));
    }
    assert(digits@.take(len as int) =~= digits@);
}

fn char_of_digit(d: u64) -> (c: char)
    requires
        d < 10,
    ensures
        c == (('0' as nat) + d as nat) as char,
{
    hex_digit_char(d)
}

} // verus!
