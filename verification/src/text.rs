//! Text helpers: UTF-8 decoding of datagrams and decimal rendering of numbers.
use vstd::prelude::*;
use vstd::string::*;
use vstd::utf8::*;

verus! {

/// Why a byte sequence is not UTF-8, as reported by the standard library.
#[derive(Clone, Copy, Debug, PartialEq, Eq)]
pub struct Utf8Fault {
    /// Length of the longest prefix of the input that is valid UTF-8.
    pub valid_up_to: usize,
    /// `Some(n)`: an invalid sequence of `n` bytes starts at `valid_up_to`;
    /// `None`: the input ended in the middle of a character.
    pub error_len: Option<usize>,
}

/// `k` is the length of the longest prefix of `bytes` that is valid UTF-8.
pub open spec fn is_longest_valid_prefix(bytes: Seq<u8>, k: int) -> bool {
    &&& 0 <= k <= bytes.len()
    &&& valid_utf8(bytes.take(k))
    &&& forall|j: int| k < j <= bytes.len() ==> !valid_utf8(#[trigger] bytes.take(j))
}

/// Length of the longest prefix of `bytes` that is valid UTF-8.
pub open spec fn longest_valid_prefix(bytes: Seq<u8>) -> int {
    choose|k: int| is_longest_valid_prefix(bytes, k)
}

/// There is at most one longest valid prefix, and `longest_valid_prefix` picks it.
pub proof fn lemma_longest_valid_prefix_unique(bytes: Seq<u8>, k: int)
    requires
        is_longest_valid_prefix(bytes, k),
    ensures
        longest_valid_prefix(bytes) == k,
{
    let c = longest_valid_prefix(bytes);
    assert(is_longest_valid_prefix(bytes, c));
    if c < k {
        assert(!valid_utf8(bytes.take(k)));
    }
    if k < c {
        assert(!valid_utf8(bytes.take(c)));
    }
}

/// The length of the invalid sequence that `std::str::Utf8Error::error_len`
/// reports for the error that `std::str::from_utf8` returns on `bytes`.
pub uninterp spec fn utf8_error_len(bytes: Seq<u8>) -> Option<usize>;

/// Trusted: `std::str::from_utf8`, with its error read through
/// `Utf8Error::valid_up_to` and `Utf8Error::error_len`.
/// The standard library documents that it succeeds exactly on valid UTF-8 and
/// then returns a string slice over the same bytes; that `valid_up_to` is the
/// largest index up to which the input is valid UTF-8; and that `error_len`
/// is `None` only when the input ends 1 to 3 bytes after `valid_up_to`, and
/// otherwise the length of the invalid sequence starting there. Which length
/// that is for a given invalid sequence the documentation leaves open: it is
/// named by `utf8_error_len`.
#[verifier::external_body]
pub(crate) fn str_from_utf8(bytes: &[u8]) -> (res: Result<&str, Utf8Fault>)
    ensures
        res is Ok <==> valid_utf8(bytes@),
        res matches Ok(s) ==> s.spec_bytes() == bytes@,
        res matches Err(f) ==> is_longest_valid_prefix(bytes@, f.valid_up_to as int),
        res matches Err(f) ==> f.error_len == utf8_error_len(bytes@),
        res matches Err(f) ==> (f.error_len is None ==> 1 <= bytes@.len() - f.valid_up_to <= 3),
        res matches Err(f) ==> (f.error_len matches Some(n) ==> 1 <= n && f.valid_up_to + n
            <= bytes@.len()),
{
    match std::str::from_utf8(bytes) {
        Ok(s) => Ok(s),
        Err(e) => Err(Utf8Fault { valid_up_to: e.valid_up_to(), error_len: e.error_len() }),
    }
}

/// Trusted: `String::push`, documented to append the given char to the end of the string.
pub assume_specification[ String::push ](s: &mut String, ch: char)
    ensures
        final(s)@ == old(s)@.push(ch),
;

/// The character of a decimal digit.
pub open spec fn digit_char(d: nat) -> char {
    (d + 48) as char
}

/// Decimal notation of `n`, without leading zeros.
pub open spec fn decimal(n: nat) -> Seq<char>
    decreases n,
{
    if n < 10 {
        seq![digit_char(n)]
    } else {
        decimal(n / 10).push(digit_char(n % 10))
    }
}

/// The number that a string of decimal digits denotes.
pub open spec fn decimal_value(digits: Seq<char>) -> nat
    decreases digits.len(),
{
    if digits.len() == 0 {
        0
    } else {
        decimal_value(digits.drop_last()) * 10 + ((digits.last() as int - 48) as nat)
    }
}

/// Whether every character is a decimal digit.
pub open spec fn all_digits(s: Seq<char>) -> bool {
    forall|i: int| 0 <= i < s.len() ==> '0' <= #[trigger] s[i] <= '9'
}

/// Decimal notation consists of digits, starts with a non-zero digit unless
/// it is `0`, and reads back as the number it was written from.
pub proof fn lemma_decimal_reads_back(n: nat)
    ensures
        all_digits(decimal(n)),
        decimal(n).len() > 0,
        decimal(n)[0] == '0' ==> n == 0,
        decimal_value(decimal(n)) == n,
    decreases n,
{
    if n >= 10 {
        lemma_decimal_reads_back(n / 10);
        let d = decimal(n);
        let last = n % 10;
        assert(digit_char(last) as int == last + 48);
        assert(d.drop_last() == decimal(n / 10));
        assert(d.last() == digit_char(last));
        assert(n == (n / 10) * 10 + last);
        assert(d[0] == decimal(n / 10)[0]);
        assert(decimal_value(d) == decimal_value(d.drop_last()) * 10 + ((d.last() as int - 48) as nat));
        assert(decimal_value(d) == (n / 10) * 10 + last);
    } else {
        let d = decimal(n);
        assert(digit_char(n) as int == n + 48);
        assert(d.drop_last() =~= Seq::<char>::empty());
        assert(decimal_value(d) == decimal_value(d.drop_last()) * 10 + ((d.last() as int - 48) as nat));
    }
}

/// Appends the decimal notation of `n` to `out`.
pub fn push_decimal(out: &mut String, n: usize)
    ensures
        final(out)@ == old(out)@ + decimal(n as nat),
    decreases n,
{
    if n >= 10 {
        push_decimal(out, n / 10);
    }
    let d: u8 = (n % 10) as u8;
    let c: char = (48u8 + d) as char;
    out.push(c);
    assert(final(out)@ =~= old(out)@ + decimal(n as nat));
}

/// The standard library's wording for a UTF-8 fault.
pub open spec fn utf8_fault_description(valid_up_to: nat, error_len: Option<usize>) -> Seq<char> {
    match error_len {
        Some(n) => "invalid utf-8 sequence of "@ + decimal(n as nat) + " bytes from index "@
            + decimal(valid_up_to),
        None => "incomplete utf-8 byte sequence from index "@ + decimal(valid_up_to),
    }
}

/// Describes a UTF-8 fault in the standard library's wording.
pub fn describe_utf8_fault(fault: &Utf8Fault) -> (text: String)
    ensures
        text@ == utf8_fault_description(fault.valid_up_to as nat, fault.error_len),
{
    match fault.error_len {
        Some(n) => {
            let mut text = String::from_str("invalid utf-8 sequence of ");
            push_decimal(&mut text, n);
            text.append(" bytes from index ");
            push_decimal(&mut text, fault.valid_up_to);
            text
        },
        None => {
            let mut text = String::from_str("incomplete utf-8 byte sequence from index ");
            push_decimal(&mut text, fault.valid_up_to);
            text
        },
    }
}

/// Whether two byte slices hold the same bytes.
pub fn bytes_equal(a: &[u8], b: &[u8]) -> (same: bool)
    ensures
        same == (a@ == b@),
{
    if a.len() != b.len() {
        return false;
    }
    let n = a.len();
    for i in 0..n
        invariant
            n == a@.len(),
            n == b@.len(),
            forall|j: int| 0 <= j < i ==> a@[j] == b@[j],
    {
        if a[i] != b[i] {
            return false;
        }
    }
    assert(a@ =~= b@);
    true
}

} // verus!
