//! Text and byte encodings that the backends use for file names and keys:
//! hexadecimal, decimal, base64 and big-endian integers.

use vstd::prelude::*;

verus! {

/// The ASCII code of the lower-case hexadecimal digit for `n`, `0 <= n < 16`.
pub open spec fn hex_digit(n: int) -> u8 {
    if n < 10 {
        (48 + n) as u8
    } else {
        (87 + n) as u8
    }
}

/// Two lower-case hexadecimal digits per byte, high digit first, as ASCII.
pub open spec fn hex_ascii(data: Seq<u8>) -> Seq<u8> {
    Seq::new(
        2 * data.len(),
        |i: int|
            if i % 2 == 0 {
                hex_digit(data[i / 2] as int / 16)
            } else {
                hex_digit(data[i / 2] as int % 16)
            },
    )
}

/// The characters of ASCII text.
pub open spec fn ascii_text(codes: Seq<u8>) -> Seq<char> {
    Seq::new(codes.len(), |i: int| codes[i] as char)
}

/// Two lower-case hexadecimal digits per byte, high digit first.
pub open spec fn hex_text(data: Seq<u8>) -> Seq<char> {
    ascii_text(hex_ascii(data))
}

/// The value of a hexadecimal digit given by its ASCII code, in either case.
pub open spec fn hex_value(c: u8) -> Option<int> {
    if 48 <= c <= 57 {
        Some(c - 48)
    } else if 97 <= c <= 102 {
        Some(c - 87)
    } else if 65 <= c <= 70 {
        Some(c - 55)
    } else {
        None
    }
}

/// Whether `text` is an even number of hexadecimal digits.
pub open spec fn is_hex(text: Seq<u8>) -> bool {
    &&& text.len() % 2 == 0
    &&& forall|i: int| 0 <= i < text.len() ==> hex_value(#[trigger] text[i]) is Some
}

/// The bytes that hexadecimal text stands for, one per pair of digits.
pub open spec fn hex_data(text: Seq<u8>) -> Seq<u8> {
    Seq::new(
        text.len() / 2,
        |i: int| (16 * hex_value(text[2 * i]).unwrap() + hex_value(text[2 * i + 1]).unwrap()) as u8,
    )
}

/// Hexadecimal text of any bytes is valid and stands for these bytes.
pub proof fn lemma_hex_round_trip(data: Seq<u8>)
    ensures
        is_hex(hex_ascii(data)),
        hex_data(hex_ascii(data)) == data,
{
    let text = hex_ascii(data);
    assert forall|i: int| 0 <= i < text.len() implies hex_value(#[trigger] text[i]) is Some by {
        let b = data[i / 2] as int;
        assert(0 <= b / 16 < 16 && 0 <= b % 16 < 16);
    }
    assert forall|i: int| 0 <= i < data.len() implies hex_data(text)[i] == data[i] by {
        let b = data[i] as int;
        assert(0 <= b / 16 < 16 && 0 <= b % 16 < 16);
        assert((2 * i) / 2 == i && (2 * i + 1) / 2 == i);
        assert((2 * i) % 2 == 0 && (2 * i + 1) % 2 == 1);
        assert(text[2 * i] == hex_digit(b / 16));
        assert(text[2 * i + 1] == hex_digit(b % 16));
        assert(hex_value(hex_digit(b / 16)) == Some(b / 16));
        assert(hex_value(hex_digit(b % 16)) == Some(b % 16));
        assert(16 * (b / 16) + b % 16 == b);
    }
    assert(hex_data(text) =~= data);
}

/// Different bytes have different hexadecimal text.
pub proof fn lemma_hex_injective(a: Seq<u8>, b: Seq<u8>)
    requires
        hex_ascii(a) == hex_ascii(b),
    ensures
        a == b,
{
    lemma_hex_round_trip(a);
    lemma_hex_round_trip(b);
}

/// The ASCII codes of text.
pub open spec fn text_codes(text: Seq<char>) -> Seq<u8> {
    Seq::new(text.len(), |i: int| text[i] as u8)
}

/// ASCII text has the codes it was made of.
pub proof fn lemma_ascii_round_trip(codes: Seq<u8>)
    ensures
        text_codes(ascii_text(codes)) == codes,
{
    assert forall|i: int| 0 <= i < codes.len() implies text_codes(ascii_text(codes))[i]
        == codes[i] by {
        let c = codes[i];
        assert((c as char) as u8 == c);
    }
    assert(text_codes(ascii_text(codes)) =~= codes);
}

/// Different bytes have different hexadecimal text, and no character of
/// hexadecimal text is a hyphen.
pub proof fn lemma_hex_text(a: Seq<u8>, b: Seq<u8>)
    ensures
        hex_text(a).len() == 2 * a.len(),
        forall|i: int| 0 <= i < hex_text(a).len() ==> #[trigger] hex_text(a)[i] != '-',
        hex_text(a) == hex_text(b) ==> a == b,
{
    assert forall|i: int| 0 <= i < hex_text(a).len() implies #[trigger] hex_text(a)[i] != '-' by {
        let n = if i % 2 == 0 {
            a[i / 2] as int / 16
        } else {
            a[i / 2] as int % 16
        };
        assert(0 <= n < 16);
        let code = hex_digit(n);
        assert(hex_text(a)[i] == code as char);
        assert(code != 45);
        assert((code as char) as u8 == code);
        assert(('-' as u8) == 45u8);
    }
    if hex_text(a) == hex_text(b) {
        lemma_ascii_round_trip(hex_ascii(a));
        lemma_ascii_round_trip(hex_ascii(b));
        lemma_hex_injective(a, b);
    }
}

/// `hex::FromHexError`: the error of `hex::decode`, handed on as it is.
#[verifier::external_type_specification]
#[verifier::external_body]
pub struct ExFromHexError(hex::FromHexError);

/// `automerge::ActorId::to_hex_string`, on the actor made of `bytes`. The
/// contract says that the text holds two lower-case hexadecimal digits for
/// each byte, in order.
#[verifier::external_body]
pub(crate) fn actor_hex(bytes: &Vec<u8>) -> (s: String)
    ensures
        s@ == hex_text(bytes@),
{
    automerge::ActorId::from(bytes.as_slice()).to_hex_string()
}

/// `hex::encode`. The contract says that the text holds two lower-case
/// hexadecimal digits for each byte, in order.
#[verifier::external_body]
pub(crate) fn hex_encode(data: &[u8]) -> (s: String)
    ensures
        s@ == hex_text(data@),
{
    hex::encode(data)
}

/// `hex::decode`. The contract says that it succeeds exactly on an even
/// number of hexadecimal digits of either case, and then returns one byte per
/// pair of digits, the first digit of a pair being the high one.
#[verifier::external_body]
pub(crate) fn hex_decode(text: &[u8]) -> (r: Result<Vec<u8>, hex::FromHexError>)
    ensures
        match r {
            Ok(data) => is_hex(text@) && data@ == hex_data(text@),
            Err(_) => !is_hex(text@),
        },
{
    hex::decode(text)
}

/// `base64::DecodeError`: the error of `base64::decode`, looked at only to
/// tell failure from success.
#[verifier::external_type_specification]
#[verifier::external_body]
pub struct ExBase64DecodeError(base64::DecodeError);

/// The text that `base64::encode` returns for `data`: standard alphabet,
/// with padding.
pub uninterp spec fn base64_text(data: Seq<u8>) -> Seq<char>;

/// The bytes that `base64::decode` returns for `text`, `None` where it
/// rejects the text.
pub uninterp spec fn base64_data(text: Seq<char>) -> Option<Seq<u8>>;

/// `base64::encode`. The contract names the text and says that decoding it
/// gives the data back. The length bound holds of every slice; without it
/// the size of the text would not fit in `usize`.
#[verifier::external_body]
pub(crate) fn base64_encode(data: &[u8]) -> (s: String)
    requires
        data@.len() <= isize::MAX,
    ensures
        s@ == base64_text(data@),
        base64_data(s@) == Some(data@),
{
    base64::encode(data)
}

/// `base64::decode`. The contract names the bytes and says that the call
/// fails exactly where there are none. The call adds small numbers to the
/// length of the text; no text is long enough for that to overflow.
#[verifier::external_body]
pub(crate) fn base64_decode(text: &str) -> (r: Result<Vec<u8>, base64::DecodeError>)
    ensures
        match r {
            Ok(data) => base64_data(text@) == Some(data@),
            Err(_) => base64_data(text@) is None,
        },
{
    base64::decode(text)
}

/// The decimal digit `d`, `0 <= d < 10`, as a character.
pub open spec fn digit_char(d: int) -> char {
    ((48 + d) as u8) as char
}

/// The decimal notation of `n`, without leading zeros.
pub open spec fn decimal_text(n: nat) -> Seq<char>
    decreases n,
{
    if n < 10 {
        seq![digit_char(n as int)]
    } else {
        decimal_text(n / 10).push(digit_char((n % 10) as int))
    }
}

/// The number that decimal text stands for.
pub open spec fn decimal_value(text: Seq<char>) -> nat
    decreases text.len(),
{
    if text.len() == 0 {
        0
    } else {
        (decimal_value(text.drop_last()) * 10 + (text.last() as u8 - 48)) as nat
    }
}

/// Decimal notation stands for its number, so different numbers have
/// different notations; it is never empty and holds no hyphen.
pub proof fn lemma_decimal_text(n: nat)
    ensures
        decimal_value(decimal_text(n)) == n,
        decimal_text(n).len() >= 1,
        forall|i: int| 0 <= i < decimal_text(n).len() ==> #[trigger] decimal_text(n)[i] != '-',
    decreases n,
{
    let text = decimal_text(n);
    let d = (n % 10) as int;
    let code = (48 + d) as u8;
    assert((code as char) as u8 == code);
    assert(('-' as u8) == 45u8);
    if n < 10 {
        assert(text =~= seq![digit_char(n as int)]);
        assert(text.drop_last() =~= Seq::<char>::empty());
        assert(decimal_value(text.drop_last()) == 0);
    } else {
        lemma_decimal_text(n / 10);
        assert(text.drop_last() =~= decimal_text(n / 10));
        assert(text.last() == digit_char(d));
    }
}

/// Different numbers have different decimal notations.
pub proof fn lemma_decimal_injective(a: nat, b: nat)
    requires
        decimal_text(a) == decimal_text(b),
    ensures
        a == b,
{
    lemma_decimal_text(a);
    lemma_decimal_text(b);
}

/// The text of one decimal digit.
fn digit_str(d: u64) -> (s: &'static str)
    requires
        d < 10,
    ensures
        s@ == seq![digit_char(d as int)],
{
    proof {
        reveal_strlit("0");
        reveal_strlit("1");
        reveal_strlit("2");
        reveal_strlit("3");
        reveal_strlit("4");
        reveal_strlit("5");
        reveal_strlit("6");
        reveal_strlit("7");
        reveal_strlit("8");
        reveal_strlit("9");
    }
    let s = if d == 0 {
        "0"
    } else if d == 1 {
        "1"
    } else if d == 2 {
        "2"
    } else if d == 3 {
        "3"
    } else if d == 4 {
        "4"
    } else if d == 5 {
        "5"
    } else if d == 6 {
        "6"
    } else if d == 7 {
        "7"
    } else if d == 8 {
        "8"
    } else {
        "9"
    };
    assert(s@ =~= seq![digit_char(d as int)]);
    s
}

/// The decimal notation of `n`.
pub fn decimal_string(n: u64) -> (s: String)
    ensures
        s@ == decimal_text(n as nat),
{
    let mut x: u64 = n;
    let mut tail = String::from_str("");
    proof {
        reveal_strlit("");
        assert(decimal_text(x as nat) + tail@ =~= decimal_text(n as nat));
    }
    while x >= 10
        invariant
            decimal_text(n as nat) == decimal_text(x as nat) + tail@,
        decreases x,
    {
        let d: u64 = x % 10;
        let ghost before = tail@;
        tail = String::from_str(digit_str(d)).concat(tail.as_str());
        proof {
            assert(decimal_text(x as nat) == decimal_text((x / 10) as nat).push(digit_char(d as int)));
            assert(decimal_text((x / 10) as nat).push(digit_char(d as int)) + before
                =~= decimal_text((x / 10) as nat) + tail@);
        }
        x = x / 10;
    }
    String::from_str(digit_str(x)).concat(tail.as_str())
}

} // verus!
