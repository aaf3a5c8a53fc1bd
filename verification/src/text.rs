//! Text: comparing strings and writing integers in decimal.
use vstd::prelude::*;
use vstd::string::StringExecFns;
use vstd::utf8::{decode_utf8, encode_utf8, encode_utf8_decode_utf8, valid_utf8};

verus! {

/// The decimal digit `d`.
pub open spec fn digit(d: int) -> Seq<char> {
    if d == 0 {
        "0"@
    } else if d == 1 {
        "1"@
    } else if d == 2 {
        "2"@
    } else if d == 3 {
        "3"@
    } else if d == 4 {
        "4"@
    } else if d == 5 {
        "5"@
    } else if d == 6 {
        "6"@
    } else if d == 7 {
        "7"@
    } else if d == 8 {
        "8"@
    } else {
        "9"@
    }
}

/// The decimal digits of `n`, most significant first, without leading zeros.
pub open spec fn digits(n: nat) -> Seq<char>
    decreases n,
{
    if n < 10 {
        digit(n as int)
    } else {
        digits(n / 10) + digit((n % 10) as int)
    }
}

/// `n` in decimal, with a leading minus sign when it is negative.
pub open spec fn decimal(n: int) -> Seq<char> {
    if n < 0 {
        "-"@ + digits((-n) as nat)
    } else {
        digits(n as nat)
    }
}

/// Whether two strings hold the same characters.
pub fn same_text(a: &str, b: &str) -> (same: bool)
    ensures
        same == (a@ == b@),
{
    let x: &[u8] = a.as_bytes();
    let y: &[u8] = b.as_bytes();
    proof {
        encode_utf8_decode_utf8(a@);
        encode_utf8_decode_utf8(b@);
    }
    if x.len() != y.len() {
        return false;
    }
    let mut i: usize = 0;
    while i < x.len()
        invariant
            x@ == encode_utf8(a@),
            y@ == encode_utf8(b@),
            x@.len() == y@.len(),
            i <= x@.len(),
            forall|j: int| 0 <= j < i ==> x@[j] == y@[j],
        decreases x@.len() - i,
    {
        if x[i] != y[i] {
            return false;
        }
        i = i + 1;
    }
    assert(x@ =~= y@);
    true
}

fn digit_text(d: u64) -> (text: &'static str)
    requires
        d < 10,
    ensures
        text@ == digit(d as int),
{
    if d == 0 {
        "0"
    } else if d == 1 {
        "1"
    } else if d == 2 {
        "2"
    } else if d == 3 {
        "3"
    } else if d == 4 {
        "4"
    } else if d == 5 {
        "5"
    } else if d == 6 {
        "6"
    } else if d == 7 {
        "7"
    } else if d == 8 {
        "8"
    } else {
        "9"
    }
}

/// `n` in decimal.
pub fn unsigned_text(n: u64) -> (text: String)
    ensures
        text@ == decimal(n as int),
    decreases n,
{
    if n < 10 {
        String::from_str(digit_text(n))
    } else {
        unsigned_text(n / 10).concat(digit_text(n % 10))
    }
}

/// `n` in decimal.
pub fn signed_text(n: i64) -> (text: String)
    ensures
        text@ == decimal(n as int),
{
    if n < 0 {
        let magnitude: u64 = (-(n as i128)) as u64;
        let digits = unsigned_text(magnitude);
        String::from_str("-").concat(digits.as_str())
    } else {
        unsigned_text(n as u64)
    }
}

/// The error by which the standard library reports bytes that are not UTF-8.
#[verifier::external_type_specification]
#[verifier::external_body]
pub struct ExUtf8Error(core::str::Utf8Error);

/// `core::str::from_utf8`: it succeeds on exactly the bytes that are UTF-8, with the characters
/// that they encode.
pub assume_specification[ core::str::from_utf8 ](v: &[u8]) -> (text: Result<
    &str,
    core::str::Utf8Error,
>)
    ensures
        text is Ok <==> valid_utf8(v@),
        text matches Ok(text) ==> text@ == decode_utf8(v@),
;

/// The characters that `bytes` encode, where they are UTF-8.
pub open spec fn utf8(bytes: Seq<u8>) -> Option<Seq<char>> {
    if valid_utf8(bytes) {
        Some(decode_utf8(bytes))
    } else {
        None
    }
}

/// The text that `bytes` encode, where they are UTF-8.
pub fn utf8_text(bytes: &Vec<u8>) -> (text: Option<&str>)
    ensures
        match text {
            Some(text) => utf8(bytes@) == Some(text@),
            None => utf8(bytes@) is None,
        },
{
    match core::str::from_utf8(bytes.as_slice()) {
        Ok(text) => Some(text),
        Err(_) => None,
    }
}

proof fn lemma_digit(d: int)
    requires
        0 <= d < 10,
    ensures
        digit(d).len() == 1,
        digit(d)[0] as int == '0' as int + d,
{
    reveal_strlit("0");
    reveal_strlit("1");
    reveal_strlit("2");
    reveal_strlit("3");
    reveal_strlit("4");
    reveal_strlit("5");
    reveal_strlit("6");
    reveal_strlit("7");
    reveal_strlit("8");
    reveal_strlit("9");
}

/// The text of a number that is not below zero consists of decimal digits, does not start with a
/// zero unless it is a zero alone, and is read as that number. A number below zero has a minus sign
/// before the text of the other one.
pub proof fn law_decimal_is_read_back(n: int)
    ensures
        n >= 0 ==> decimal(n).fold_left(
            0int,
            |before: int, c: char| 10 * before + (c as int - '0' as int),
        ) == n,
        n >= 0 ==> decimal(n).len() > 0,
        n >= 0 ==> forall|i: int|
            0 <= i < decimal(n).len() ==> '0' <= #[trigger] decimal(n)[i] <= '9',
        n > 0 ==> decimal(n)[0] != '0',
        n < 0 ==> decimal(n) == "-"@ + decimal(-n),
{
    if n >= 0 {
        lemma_digits_are_read_back(n as nat);
    }
}

proof fn lemma_digits_are_read_back(n: nat)
    ensures
        digits(n).fold_left(0int, |before: int, c: char| 10 * before + (c as int - '0' as int))
            == n,
        digits(n).len() > 0,
        forall|i: int| 0 <= i < digits(n).len() ==> '0' <= #[trigger] digits(n)[i] <= '9',
        n > 0 ==> digits(n)[0] != '0',
    decreases n,
{
    let read = |before: int, c: char| 10 * before + (c as int - '0' as int);
    reveal(Seq::fold_left);
    if n < 10 {
        lemma_digit(n as int);
        assert(digits(n).drop_last() =~= Seq::<char>::empty());
        assert(Seq::<char>::empty().fold_left(0int, read) == 0);
    } else {
        lemma_digits_are_read_back(n / 10);
        lemma_digit((n % 10) as int);
        assert(digits(n).drop_last() =~= digits(n / 10));
    }
}

/// The length of a text, its first two characters, and the one before its last. Texts that differ in
/// these differ.
pub open spec fn outline(text: Seq<char>) -> (nat, char, char, char) {
    (text.len(), text[0], text[1], text[text.len() - 2])
}

} // verus!
