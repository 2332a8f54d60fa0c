//! Percent-encoding of addresses, and its reverse.

use vstd::prelude::*;
use vstd::utf8::*;

use crate::text;

verus! {

/// The characters that an address holds as they are.
pub open spec fn unreserved(byte: u8) -> bool {
    ||| 0x41 <= byte <= 0x5a  // A to Z
    ||| 0x61 <= byte <= 0x7a  // a to z
    ||| 0x30 <= byte <= 0x39  // 0 to 9
    ||| byte == 0x2d || byte == 0x5f || byte == 0x2e || byte == 0x7e  // - _ . ~

}

/// The hexadecimal digit `n`, in capitals.
pub open spec fn hex_digit(n: int) -> char {
    if n < 10 {
        (48 + n) as u8 as char
    } else {
        (55 + n) as u8 as char
    }
}

/// How one byte is written.
pub open spec fn encoded_byte(byte: u8) -> Seq<char> {
    if unreserved(byte) {
        seq![byte as char]
    } else {
        seq!['%', hex_digit(byte as int / 16), hex_digit(byte as int % 16)]
    }
}

pub open spec fn encoded_bytes(bytes: Seq<u8>) -> Seq<char>
    decreases bytes.len(),
{
    if bytes.len() == 0 {
        Seq::empty()
    } else {
        encoded_bytes(bytes.drop_last()) + encoded_byte(bytes.last())
    }
}

/// `value` written so that it can stand in an address: every byte of its
/// UTF-8 form that is not unreserved becomes `%` and two digits.
pub open spec fn url_encoded(value: Seq<char>) -> Seq<char> {
    encoded_bytes(encode_utf8(value))
}

fn push_hex(out: &mut String, n: u8)
    requires
        n < 16,
    ensures
        final(out)@ == old(out)@.push(hex_digit(n as int)),
{
    if n < 10 {
        out.push((48 + n) as char);
    } else {
        out.push((55 + n) as char);
    }
}

pub fn urlencode(value: &str) -> (r: String)
    ensures
        r@ == url_encoded(value@),
{
    let bytes = value.as_bytes();
    let mut out = String::new();
    let mut i: usize = 0;
    while i < bytes.len()
        invariant
            i <= bytes@.len(),
            bytes@ == encode_utf8(value@),
            out@ == encoded_bytes(bytes@.take(i as int)),
        decreases bytes@.len() - i,
    {
        let byte = bytes[i];
        let ghost before = out@;
        proof {
            assert(bytes@.take(i + 1).drop_last() == bytes@.take(i as int));
        }
        if (0x41 <= byte && byte <= 0x5a) || (0x61 <= byte && byte <= 0x7a) || (0x30 <= byte && byte
            <= 0x39) || byte == 0x2d || byte == 0x5f || byte == 0x2e || byte == 0x7e {
            out.push(byte as char);
        } else {
            out.push('%');
            push_hex(&mut out, byte / 16);
            push_hex(&mut out, byte % 16);
        }
        assert(out@ == before + encoded_byte(byte));
        i = i + 1;
    }
    assert(bytes@.take(i as int) == bytes@);
    out
}

/// The value of a hexadecimal digit, in capitals or not.
pub open spec fn hex_value(byte: u8) -> Option<u8> {
    if 0x30 <= byte <= 0x39 {
        Some((byte - 0x30) as u8)
    } else if 0x41 <= byte <= 0x46 {
        Some((byte - 0x37) as u8)
    } else if 0x61 <= byte <= 0x66 {
        Some((byte - 0x57) as u8)
    } else {
        None
    }
}

/// The byte that two characters after a `%` stand for. A plus sign before a
/// single digit is read as a sign.
pub open spec fn escaped_byte(high: u8, low: u8) -> Option<u8> {
    if high == 0x2b {
        hex_value(low)
    } else {
        match (hex_value(high), hex_value(low)) {
            (Some(h), Some(l)) => Some((16 * h + l) as u8),
            _ => None,
        }
    }
}

/// `bytes` with every readable escape replaced by the byte it stands for.
pub open spec fn decoded_bytes(bytes: Seq<u8>) -> Seq<u8>
    decreases bytes.len(),
{
    if bytes.len() == 0 {
        Seq::empty()
    } else if bytes[0] == 0x25 && bytes.len() > 2 && escaped_byte(bytes[1], bytes[2]) is Some {
        seq![escaped_byte(bytes[1], bytes[2])->0] + decoded_bytes(bytes.skip(3))
    } else {
        seq![bytes[0]] + decoded_bytes(bytes.skip(1))
    }
}

/// What `String::from_utf8_lossy` makes of bytes.
pub uninterp spec fn lossy_text(bytes: Seq<u8>) -> Seq<char>;

/// `String::from_utf8_lossy`: valid UTF-8 is decoded as it stands. In other
/// input the invalid parts become replacement characters; which parts those
/// are is left to the name.
#[verifier::external_body]
fn text_from_utf8_lossy(bytes: &Vec<u8>) -> (r: String)
    ensures
        r@ == lossy_text(bytes@),
        valid_utf8(bytes@) ==> r@ == decode_utf8(bytes@),
{
    String::from_utf8_lossy(bytes).into_owned()
}

/// `value` with its percent-escapes undone.
pub open spec fn percent_decoded(value: Seq<char>) -> Seq<char> {
    lossy_text(decoded_bytes(encode_utf8(value)))
}

fn digit_value(byte: u8) -> (r: Option<u8>)
    ensures
        r == hex_value(byte),
        r matches Some(v) ==> v < 16,
{
    if 0x30 <= byte && byte <= 0x39 {
        Some(byte - 0x30)
    } else if 0x41 <= byte && byte <= 0x46 {
        Some(byte - 0x37)
    } else if 0x61 <= byte && byte <= 0x66 {
        Some(byte - 0x57)
    } else {
        None
    }
}

fn read_escape(high: u8, low: u8) -> (r: Option<u8>)
    ensures
        r == escaped_byte(high, low),
{
    if high == 0x2b {
        return digit_value(low);
    }
    match (digit_value(high), digit_value(low)) {
        (Some(h), Some(l)) => Some(16 * h + l),
        _ => None,
    }
}

pub fn percent_decode(value: &str) -> (r: String)
    ensures
        r@ == percent_decoded(value@),
        valid_utf8(decoded_bytes(encode_utf8(value@))) ==> r@ == decode_utf8(
            decoded_bytes(encode_utf8(value@)),
        ),
{
    let bytes = value.as_bytes();
    let len = bytes.len();
    let mut out: Vec<u8> = Vec::new();
    let mut index: usize = 0;
    assert(bytes@.skip(0) == bytes@);
    while index < len
        invariant
            len == bytes@.len(),
            bytes@ == encode_utf8(value@),
            index <= len,
            out@ + decoded_bytes(bytes@.skip(index as int)) == decoded_bytes(bytes@),
        decreases len - index,
    {
        let ghost rest = bytes@.skip(index as int);
        let ghost before = out@;
        let mut step: usize = 1;
        let mut byte: u8 = bytes[index];
        if byte == 0x25 && len - index > 2 {
            if let Some(escaped) = read_escape(bytes[index + 1], bytes[index + 2]) {
                byte = escaped;
                step = 3;
            }
        }
        out.push(byte);
        index = index + step;
        proof {
            assert(rest.skip(step as int) == bytes@.skip(index as int));
            assert(before + (seq![byte] + decoded_bytes(rest.skip(step as int))) == out@
                + decoded_bytes(rest.skip(step as int)));
        }
    }
    assert(out@ + decoded_bytes(bytes@.skip(index as int)) == out@);
    text_from_utf8_lossy(&out)
}

/// The byte form of what `encoded_byte` writes.
spec fn written(byte: u8) -> Seq<u8> {
    encoded_byte(byte).map_values(|c: char| c as u8)
}

spec fn written_all(bytes: Seq<u8>) -> Seq<u8> {
    encoded_bytes(bytes).map_values(|c: char| c as u8)
}

proof fn lemma_encoded_ascii(bytes: Seq<u8>)
    ensures
        is_ascii_chars(encoded_bytes(bytes)),
    decreases bytes.len(),
{
    if bytes.len() > 0 {
        lemma_encoded_ascii(bytes.drop_last());
    }
}

proof fn lemma_escape_back(byte: u8)
    ensures
        escaped_byte(
            hex_digit(byte as int / 16) as u8,
            hex_digit(byte as int % 16) as u8,
        ) == Some(byte),
{
}

proof fn lemma_encoded_front(bytes: Seq<u8>)
    requires
        bytes.len() > 0,
    ensures
        encoded_bytes(bytes) == encoded_byte(bytes[0]) + encoded_bytes(bytes.skip(1)),
    decreases bytes.len(),
{
    if bytes.len() == 1 {
        assert(bytes.skip(1) == Seq::<u8>::empty());
        assert(bytes.drop_last() == Seq::<u8>::empty());
        assert(encoded_bytes(bytes) == encoded_byte(bytes[0]) + encoded_bytes(bytes.skip(1)));
    } else {
        lemma_encoded_front(bytes.drop_last());
        assert(bytes.drop_last().skip(1) == bytes.skip(1).drop_last());
        assert(encoded_bytes(bytes) == encoded_byte(bytes[0]) + encoded_bytes(bytes.skip(1)));
    }
}

proof fn lemma_decoded_written(bytes: Seq<u8>)
    ensures
        decoded_bytes(written_all(bytes)) == bytes,
    decreases bytes.len(),
{
    if bytes.len() == 0 {
        assert(written_all(bytes) == Seq::<u8>::empty());
    } else {
        let rest = bytes.skip(1);
        lemma_encoded_front(bytes);
        lemma_decoded_written(rest);
        let all = written_all(bytes);
        let size = written(bytes[0]).len() as int;
        assert(all == written(bytes[0]) + written_all(rest));
        assert(all.skip(size) == written_all(rest));
        lemma_escape_back(bytes[0]);
        assert(bytes == seq![bytes[0]] + rest);
    }
}

/// What was encoded for an address decodes to what it was.
pub proof fn lemma_encode_decode(value: Seq<char>)
    ensures
        valid_utf8(decoded_bytes(encode_utf8(url_encoded(value)))),
        decode_utf8(decoded_bytes(encode_utf8(url_encoded(value)))) == value,
{
    let bytes = encode_utf8(value);
    let chars = encoded_bytes(bytes);
    lemma_encoded_ascii(bytes);
    is_ascii_chars_encode_utf8(chars);
    assert(encode_utf8(chars) == written_all(bytes));
    lemma_decoded_written(bytes);
    encode_utf8_valid_utf8(value);
    encode_utf8_decode_utf8(value);
}

/// A token as `token_in` takes it from what was pasted: the value of
/// `serialNumber=` if that occurs, else all of it; trimmed and decoded.
pub open spec fn token_source(raw: Seq<char>) -> Seq<char> {
    let raw = text::trimmed(raw);
    let name = "serialNumber="@;
    let value = match text::found_from(raw, name, 0) {
        Some(at) => text::split(raw.skip(at + name.len()), seq!['&', ' ', '\t', '\n', '\r'])[0],
        None => raw,
    };
    text::trimmed(value)
}

/// The bytes of the token in what was pasted, its escapes undone.
pub open spec fn token_bytes(raw: Seq<char>) -> Seq<u8> {
    decoded_bytes(encode_utf8(token_source(raw)))
}

/// The device token in what was pasted.
pub open spec fn token_in(raw: Seq<char>) -> Seq<char> {
    percent_decoded(token_source(raw))
}

/// The device token in what was pasted, be it the token itself or the address
/// of a registration request that carries it.
pub fn extract_device_token(raw: &str) -> (r: String)
    ensures
        r@ == token_in(raw@),
        valid_utf8(token_bytes(raw@)) ==> r@ == decode_utf8(token_bytes(raw@)),
{
    let raw = text::trim(raw);
    let chars = text::chars_of(raw.as_str());
    let len = chars.len();
    let name = text::chars_of("serialNumber=");
    let value = match text::find_from(&chars, &name, 0) {
        Some(at) => {
            let rest = text::text_of(&chars, at + name.len(), len);
            assert(rest@ == raw@.skip(at + "serialNumber="@.len()));
            let seps = vec!['&', ' ', '\t', '\n', '\r'];
            assert(seps@ == seq!['&', ' ', '\t', '\n', '\r']);
            let parts = text::split_text(rest.as_str(), &seps);
            proof {
                text::lemma_split_not_empty(rest@, seps@);
                assert(text::views(parts@)[0] == parts@[0]@);
            }
            parts[0].clone()
        },
        None => raw,
    };
    percent_decode(text::trim(value.as_str()).as_str())
}

/// A byte is written as the character that it is if that is a letter, a digit
/// or one of `-_.~`, and else as `%` and two hexadecimal digits in capitals.
pub proof fn lemma_byte_is_written(byte: u8)
    ensures
        ({
            let kept = 65 <= byte <= 90 || 97 <= byte <= 122 || 48 <= byte <= 57 || byte == 45
                || byte == 46 || byte == 95 || byte == 126;
            let written = encoded_bytes(seq![byte]);
            &&& kept ==> written.len() == 1 && written[0] as u32 == byte
            &&& !kept ==> {
                &&& written.len() == 3
                &&& written[0] == '%'
                &&& forall|i: int|
                    1 <= i < 3 ==> 48 <= #[trigger] written[i] as u32 <= 57 || 65
                        <= written[i] as u32 <= 70
                &&& byte as int == 16 * hex_number(written[1]) + hex_number(written[2])
            }
        }),
{
    assert(seq![byte].drop_last() == Seq::<u8>::empty());
    assert(encoded_bytes(Seq::<u8>::empty()) == Seq::<char>::empty());
    assert(encoded_bytes(seq![byte]) == encoded_byte(byte));
}

/// The number that a hexadecimal digit in capitals stands for.
pub open spec fn hex_number(c: char) -> int {
    if c as u32 <= 57 {
        c as u32 - 48
    } else {
        c as u32 - 55
    }
}

/// A text is written one byte after the other.
pub proof fn lemma_written_in_turn(first: Seq<u8>, second: Seq<u8>)
    ensures
        encoded_bytes(first + second) == encoded_bytes(first) + encoded_bytes(second),
    decreases second.len(),
{
    if second.len() == 0 {
        assert(first + second == first);
        assert(encoded_bytes(first) + encoded_bytes(second) == encoded_bytes(first));
    } else {
        lemma_written_in_turn(first, second.drop_last());
        assert((first + second).drop_last() == first + second.drop_last());
        assert(encoded_bytes(first) + encoded_bytes(second) == encoded_bytes(first)
            + encoded_bytes(second.drop_last()) + encoded_byte(second.last()));
    }
}

/// A hexadecimal digit, in capitals or not, stands for its number; nothing else
/// is one.
pub proof fn lemma_hex_value(byte: u8)
    ensures
        48 <= byte <= 57 ==> hex_value(byte) == Some((byte - 48) as u8),
        65 <= byte <= 70 ==> hex_value(byte) == Some((byte - 55) as u8),
        97 <= byte <= 102 ==> hex_value(byte) == Some((byte - 87) as u8),
        byte < 48 || 57 < byte < 65 || 70 < byte < 97 || 102 < byte ==> hex_value(byte) is None,
{
}

/// Reading replaces `%` and two hexadecimal digits by the byte whose number they
/// are. Every other byte stays as it is, a `%` without two digits too; a plus
/// sign may stand for the first digit.
pub proof fn lemma_escapes_are_read(bytes: Seq<u8>)
    requires
        bytes.len() > 0,
    ensures
        ({
            let kept = seq![bytes[0]] + decoded_bytes(bytes.skip(1));
            let escape = bytes[0] == 37 && bytes.len() >= 3;
            &&& !escape ==> decoded_bytes(bytes) == kept
            &&& escape && hex_value(bytes[1]) is Some && hex_value(bytes[2]) is Some
                ==> decoded_bytes(bytes) == seq![
                (16 * hex_value(bytes[1])->0 + hex_value(bytes[2])->0) as u8,
            ] + decoded_bytes(bytes.skip(3))
            &&& escape && bytes[1] == 43 && hex_value(bytes[2]) is Some ==> decoded_bytes(bytes)
                == seq![hex_value(bytes[2])->0] + decoded_bytes(bytes.skip(3))
            &&& escape && hex_value(bytes[2]) is None ==> decoded_bytes(bytes) == kept
            &&& escape && bytes[1] != 43 && hex_value(bytes[1]) is None ==> decoded_bytes(bytes)
                == kept
        }),
        decoded_bytes(Seq::empty()) == Seq::<u8>::empty(),
{
}

/// Where what was pasted names a serial number, the token stands behind the
/// first such name, up to the next separator; otherwise all of it is the token.
pub proof fn lemma_token_stands_behind_its_name(
    lead: Seq<char>,
    token: Seq<char>,
    rest: Seq<char>,
)
    requires
        text::trimmed(lead + "serialNumber="@ + token + rest) == lead + "serialNumber="@ + token
            + rest,
        forall|i: int|
            0 <= i < lead.len() ==> #[trigger] (lead + "serialNumber="@ + token + rest).subrange(
                i,
                i + "serialNumber="@.len(),
            ) != "serialNumber="@,
        forall|i: int|
            0 <= i < token.len() ==> token[i] != '&' && token[i] != ' ' && token[i] != '\t'
                && token[i] != '\n' && token[i] != '\r',
        rest.len() > 0 ==> (rest[0] == '&' || rest[0] == ' ' || rest[0] == '\t' || rest[0] == '\n'
            || rest[0] == '\r'),
    ensures
        token_source(lead + "serialNumber="@ + token + rest) == text::trimmed(token),
{
    let name = "serialNumber="@;
    let raw = lead + name + token + rest;
    let seps = seq!['&', ' ', '\t', '\n', '\r'];
    text::lemma_found_is_first(raw, name, 0);
    assert(raw.subrange(lead.len() as int, lead.len() as int + name.len()) == name);
    assert(text::found_from(raw, name, 0) == Some(lead.len() as int));
    assert(raw.skip(lead.len() as int + name.len()) == token + rest);
    assert(text::free_of(token, seps));
    if rest.len() > 0 {
        assert(seps.contains(rest[0])) by {
            assert(seps[0] == '&' && seps[1] == ' ' && seps[2] == '\t' && seps[3] == '\n' && seps[4]
                == '\r');
        }
        text::lemma_split_whole(token, seps);
        lemma_first_part_stays(token, rest, seps);
    } else {
        assert(token + rest == token);
        text::lemma_split_whole(token, seps);
    }
}

/// What follows a separator leaves the first part as it is.
proof fn lemma_first_part_stays(first: Seq<char>, rest: Seq<char>, seps: Seq<char>)
    requires
        text::free_of(first, seps),
        rest.len() > 0,
        seps.contains(rest[0]),
    ensures
        text::split(first + rest, seps)[0] == first,
        text::split(first + rest, seps).len() >= 2,
    decreases rest.len(),
{
    let all = first + rest;
    assert(all.drop_last() == first + rest.drop_last());
    if rest.len() == 1 {
        assert(first + rest.drop_last() == first);
        text::lemma_split_whole(first, seps);
    } else {
        assert(rest.drop_last()[0] == rest[0]);
        lemma_first_part_stays(first, rest.drop_last(), seps);
    }
}

/// What was pasted without naming a serial number is the token as a whole.
pub proof fn lemma_bare_token(raw: Seq<char>)
    requires
        forall|i: int|
            0 <= i && i + "serialNumber="@.len() <= text::trimmed(raw).len()
                ==> #[trigger] text::trimmed(raw).subrange(i, i + "serialNumber="@.len())
                != "serialNumber="@,
    ensures
        token_source(raw) == text::trimmed(raw),
        token_in(raw) == percent_decoded(text::trimmed(raw)),
{
    text::lemma_found_is_first(text::trimmed(raw), "serialNumber="@, 0);
    text::lemma_trimmed(raw);
}

/// White space around what was pasted makes no difference. The token is what
/// was found there with its escapes undone, byte by byte, and as a whole.
pub proof fn lemma_token_is_decoded(raw: Seq<char>, value: Seq<char>)
    ensures
        token_source(text::trimmed(raw)) == token_source(raw),
        token_in(raw) == lossy_text(decoded_bytes(encode_utf8(token_source(raw)))),
        token_bytes(raw) == decoded_bytes(encode_utf8(token_source(raw))),
        percent_decoded(value) == lossy_text(decoded_bytes(encode_utf8(value))),
        url_encoded(value) == encoded_bytes(encode_utf8(value)),
{
    text::lemma_trimmed(raw);
}

} // verus!
