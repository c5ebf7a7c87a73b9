//! Decoding one line of a candump log:
//! `(<seconds>.<microseconds>) <device> <hex id>#<hex payload or R>`.

use vstd::prelude::*;
use vstd::slice::slice_subrange;
use vstd::utf8::{decode_utf8, valid_utf8};

use crate::picana_core::frame::{frame_build, CanFrame, ConstructionError, FrameView, EFF_MASK, SFF_MASK};
use crate::text::{
    ascii_chars, char_digit, vec_from_hex, digits_value, find_byte, find_byte_memchr,
    first_index_of, hex_bytes, hex_decode, hex_digit_value, is_hex_text, lemma_ascii_utf8,
    lemma_scan_to, lemma_scan_to_unique, scan_to, str_from_utf8, str_to_u64_radix,
    u64_from_str_radix,
};

verus! {

/// Why a candump line could not be decoded.
#[derive(Debug, Clone, Copy, PartialEq, Eq, Structural)]
pub enum ParseError {
    /// The line ends before the device or the frame field.
    UnexpectedEndOfLine,
    /// The first field is not `(<seconds>.<microseconds>)`.
    InvalidTimestamp,
    /// The device field is not valid UTF-8.
    InvalidDeviceName,
    /// The frame field is not `<hex id>#<hex payload or R>`.
    InvalidCanFrame,
    /// The frame's identifier or payload is out of range.
    ConstructionError(ConstructionError),
}

/// A decoded line: timestamp in microseconds, device name and frame.
pub type CanFrameData<'a> = (u64, &'a str, CanFrame);

/// The number that `bytes` spell in `radix`: the bytes must be UTF-8 text
/// that `u64::from_str_radix` accepts.
pub open spec fn parse_number(bytes: Seq<u8>, radix: u32) -> Option<u64> {
    if valid_utf8(bytes) {
        u64_from_str_radix(decode_utf8(bytes), radix)
    } else {
        None
    }
}

/// The text before the first space (all of it when there is none).
pub open spec fn first_field(s: Seq<u8>) -> Seq<u8> {
    s.take(scan_to(s, 32, 0))
}

/// The text after the first space, if there is a space.
pub open spec fn after_first_field(s: Seq<u8>) -> Option<Seq<u8>> {
    if scan_to(s, 32, 0) < s.len() {
        Some(s.skip(scan_to(s, 32, 0) + 1))
    } else {
        None
    }
}

/// `a * b`, or `u64::MAX` when that does not fit.
pub open spec fn mul_saturating(a: u64, b: u64) -> u64 {
    if a * b > u64::MAX {
        u64::MAX
    } else {
        (a * b) as u64
    }
}

/// `a + b`, or `u64::MAX` when that does not fit.
pub open spec fn add_saturating(a: u64, b: u64) -> u64 {
    if a + b > u64::MAX {
        u64::MAX
    } else {
        (a + b) as u64
    }
}

/// The microseconds that a field `(<seconds>.<microseconds>)` gives:
/// seconds times a million plus the digits after the dot, saturating.
pub open spec fn timestamp_of(f: Seq<u8>) -> Option<u64> {
    if f.len() < 3 || f[0] != 40u8 || f[f.len() - 1] != 41u8 {
        None
    } else {
        let inner = f.subrange(1, f.len() - 1);
        match first_index_of(inner, 46) {
            None => None,
            Some(dot) => match (
                parse_number(inner.take(dot), 10),
                parse_number(inner.skip(dot + 1), 10),
            ) {
                (Some(secs), Some(micros)) => Some(
                    add_saturating(mul_saturating(secs, 1_000_000), micros),
                ),
                _ => None,
            },
        }
    }
}

/// The payload text after the `#` at `sep`, without one trailing newline.
pub open spec fn payload_text(f: Seq<u8>, sep: int) -> Seq<u8> {
    let d = f.skip(sep + 1);
    if d.len() > 0 && d.last() == 10u8 {
        d.drop_last()
    } else {
        d
    }
}

/// The frame that a field `<hex id>#<payload>` describes, where the
/// payload `R` marks a remote frame without data. The identifier is read
/// as a `u64` and keeps its low 32 bits.
pub open spec fn frame_of(f: Seq<u8>) -> Result<FrameView, ParseError> {
    match first_index_of(f, 35) {
        None => Err(ParseError::InvalidCanFrame),
        Some(sep) => {
            let text = payload_text(f, sep);
            let rtr = text == seq![82u8];
            let payload = if rtr {
                Some(Seq::<u8>::empty())
            } else {
                hex_decode(text)
            };
            match payload {
                None => Err(ParseError::InvalidCanFrame),
                Some(data) => match parse_number(f.take(sep), 16) {
                    None => Err(ParseError::InvalidCanFrame),
                    Some(id) => match frame_build(id as u32, data, rtr, false) {
                        Ok(frame) => Ok(frame),
                        Err(e) => Err(ParseError::ConstructionError(e)),
                    },
                },
            }
        },
    }
}

/// What a candump line decodes to: the timestamp of the first field, the
/// device named by the second and the frame of the third; fields after
/// the third are ignored.
pub open spec fn decode_line(s: Seq<u8>) -> Result<(u64, Seq<char>, FrameView), ParseError> {
    match timestamp_of(first_field(s)) {
        None => Err(ParseError::InvalidTimestamp),
        Some(t) => match after_first_field(s) {
            None => Err(ParseError::UnexpectedEndOfLine),
            Some(rest) => if !valid_utf8(first_field(rest)) {
                Err(ParseError::InvalidDeviceName)
            } else {
                match after_first_field(rest) {
                    None => Err(ParseError::UnexpectedEndOfLine),
                    Some(rest2) => match frame_of(first_field(rest2)) {
                        Ok(frame) => Ok((t, decode_utf8(first_field(rest)), frame)),
                        Err(e) => Err(e),
                    },
                }
            },
        },
    }
}

/// The candump line `(<secs>.<micros>) <device> <id>#<payload>`, with a
/// final newline when `newline` holds.
pub open spec fn candump_line(
    secs: Seq<u8>,
    micros: Seq<u8>,
    device: Seq<u8>,
    id: Seq<u8>,
    payload: Seq<u8>,
    newline: bool,
) -> Seq<u8> {
    seq![40u8] + secs + seq![46u8] + micros + seq![41u8, 32u8] + device + seq![32u8] + id
        + seq![35u8] + payload + (if newline {
        seq![10u8]
    } else {
        Seq::<u8>::empty()
    })
}

/// A text of digits in `radix` whose value fits in a `u64`.
pub open spec fn is_number_text(text: Seq<u8>, radix: u32) -> bool {
    &&& text.len() > 0
    &&& digits_value(ascii_chars(text), radix) is Some
    &&& digits_value(ascii_chars(text), radix)->0 <= u64::MAX
}

/// The value of a number text.
pub open spec fn number_value(text: Seq<u8>, radix: u32) -> u64 {
    digits_value(ascii_chars(text), radix)->0 as u64
}

/// The frame that `<id>#<payload>` describes, field by field.
pub open spec fn frame_fields(id: Seq<u8>, payload: Seq<u8>) -> Result<FrameView, ParseError> {
    let rtr = payload == seq![82u8];
    let data = if rtr {
        Seq::<u8>::empty()
    } else {
        hex_bytes(payload)
    };
    match frame_build(number_value(id, 16) as u32, data, rtr, false) {
        Ok(frame) => Ok(frame),
        Err(e) => Err(ParseError::ConstructionError(e)),
    }
}

/// What the line `candump_line(..)` decodes to, field by field.
pub open spec fn decoded_fields(
    secs: Seq<u8>,
    micros: Seq<u8>,
    device: Seq<u8>,
    id: Seq<u8>,
    payload: Seq<u8>,
) -> Result<(u64, Seq<char>, FrameView), ParseError> {
    let t = add_saturating(mul_saturating(number_value(secs, 10), 1_000_000), number_value(micros, 10));
    match frame_fields(id, payload) {
        Ok(frame) => Ok((t, decode_utf8(device), frame)),
        Err(e) => Err(e),
    }
}

/// Each character of a text that has a value is a digit of the radix.
proof fn lemma_digits_each(cs: Seq<char>, radix: u32)
    requires
        digits_value(cs, radix) is Some,
    ensures
        forall|i: int| 0 <= i < cs.len() ==> (#[trigger] char_digit(cs[i], radix)) is Some,
    decreases cs.len(),
{
    if cs.len() > 0 {
        lemma_digits_each(cs.drop_last(), radix);
        assert forall|i: int| 0 <= i < cs.len() implies (#[trigger] char_digit(cs[i], radix)) is Some by {
            if i < cs.len() - 1 {
                assert(cs[i] == cs.drop_last()[i]);
            }
        }
    }
}

/// The bytes of a number text are ASCII letters or digits.
proof fn lemma_number_bytes(text: Seq<u8>, radix: u32)
    requires
        digits_value(ascii_chars(text), radix) is Some,
    ensures
        forall|i: int|
            0 <= i < text.len() ==> {
                let b = #[trigger] text[i];
                (48 <= b <= 57 || 65 <= b <= 90 || 97 <= b <= 122)
            },
{
    lemma_digits_each(ascii_chars(text), radix);
    assert forall|i: int| 0 <= i < text.len() implies {
        let b = #[trigger] text[i];
        (48 <= b <= 57 || 65 <= b <= 90 || 97 <= b <= 122)
    } by {
        assert(char_digit(ascii_chars(text)[i], radix) is Some);
        assert((text[i] as char) as u32 == text[i] as u32);
    }
}

/// A text of digits in a radix, whose value fits in a `u64`, reads as
/// that value.
pub proof fn law_number_text_parses(text: Seq<u8>, radix: u32)
    requires
        is_number_text(text, radix),
    ensures
        parse_number(text, radix) == Some(number_value(text, radix)),
{
    lemma_number_bytes(text, radix);
    lemma_ascii_utf8(text);
    let cs = ascii_chars(text);
    lemma_digits_each(cs, radix);
    assert(char_digit(cs[0], radix) is Some);
    assert(cs[0] != '+') by {
        assert(('+' as u32) == 43);
    }
}

/// Where the first occurrence of a byte is, given the bytes before it.
proof fn lemma_first_at(s: Seq<u8>, b: u8, p: int)
    requires
        0 <= p <= s.len(),
        p < s.len() ==> s[p] == b,
        forall|j: int| 0 <= j < p ==> s[j] != b,
    ensures
        scan_to(s, b, 0) == p,
{
    lemma_scan_to_unique(s, b, 0, p);
}

/// Text without spaces, a space, and more: the first field is the text.
proof fn lemma_split_at_space(a: Seq<u8>, b: Seq<u8>)
    requires
        forall|i: int| 0 <= i < a.len() ==> a[i] != 32u8,
    ensures
        first_field(a + seq![32u8] + b) == a,
        after_first_field(a + seq![32u8] + b) == Some(b),
{
    let s = a + seq![32u8] + b;
    assert forall|j: int| 0 <= j < a.len() implies s[j] != 32u8 by {
        assert(s[j] == a[j]);
    }
    lemma_first_at(s, 32u8, a.len() as int);
    assert(s.take(a.len() as int) =~= a);
    assert(s.skip(a.len() as int + 1) =~= b);
}

/// The timestamp field of a candump line has no space and reads as its
/// value.
proof fn lemma_timestamp_field(secs: Seq<u8>, micros: Seq<u8>)
    requires
        is_number_text(secs, 10),
        is_number_text(micros, 10),
    ensures
        forall|j: int|
            0 <= j < (seq![40u8] + secs + seq![46u8] + micros + seq![41u8]).len() ==> (seq![40u8]
                + secs + seq![46u8] + micros + seq![41u8])[j] != 32u8,
        timestamp_of(seq![40u8] + secs + seq![46u8] + micros + seq![41u8]) == Some(
            add_saturating(mul_saturating(number_value(secs, 10), 1_000_000), number_value(micros, 10)),
        ),
{
    lemma_number_bytes(secs, 10);
    lemma_number_bytes(micros, 10);
    law_number_text_parses(secs, 10);
    law_number_text_parses(micros, 10);
    let t_field = seq![40u8] + secs + seq![46u8] + micros + seq![41u8];
    let p0 = t_field.len() as int;
    assert forall|j: int| 0 <= j < p0 implies t_field[j] != 32u8 by {
        if 1 <= j < 1 + secs.len() {
            assert(t_field[j] == secs[j - 1]);
        } else if 1 + secs.len() < j < p0 - 1 {
            assert(t_field[j] == micros[j - 2 - secs.len()]);
        }
    }
    let inner = secs + seq![46u8] + micros;
    assert(t_field.subrange(1, t_field.len() - 1) =~= inner);
    assert forall|j: int| 0 <= j < secs.len() implies inner[j] != 46u8 by {
        assert(inner[j] == secs[j]);
    }
    lemma_first_at(inner, 46u8, secs.len() as int);
    assert(inner.take(secs.len() as int) =~= secs);
    assert(inner.skip(secs.len() as int + 1) =~= micros);
}

/// The frame field of a candump line has no space and reads as the frame
/// of its identifier and payload.
proof fn lemma_frame_field(id: Seq<u8>, payload: Seq<u8>, nl: Seq<u8>)
    requires
        is_number_text(id, 16),
        payload == seq![82u8] || is_hex_text(payload),
        nl == seq![10u8] || nl == Seq::<u8>::empty(),
    ensures
        first_field(id + seq![35u8] + payload + nl) == id + seq![35u8] + payload + nl,
        frame_of(id + seq![35u8] + payload + nl) == frame_fields(id, payload),
{
    lemma_number_bytes(id, 16);
    law_number_text_parses(id, 16);
    assert(forall|i: int| 0 <= i < payload.len() ==> {
        let b = #[trigger] payload[i];
        b != 32u8 && b != 35u8 && b != 10u8
    }) by {
        if payload != seq![82u8] {
            assert forall|i: int| 0 <= i < payload.len() implies {
                let b = #[trigger] payload[i];
                b != 32u8 && b != 35u8 && b != 10u8
            } by {
                assert(hex_digit_value(payload[i]) is Some);
            }
        }
    }
    let fr = id + seq![35u8] + payload + nl;
    assert forall|j: int| 0 <= j < fr.len() implies fr[j] != 32u8 by {
        if j < id.len() {
            assert(fr[j] == id[j]);
        } else if id.len() < j < id.len() + 1 + payload.len() {
            assert(fr[j] == payload[j - id.len() - 1]);
        }
    }
    lemma_first_at(fr, 32u8, fr.len() as int);
    assert(first_field(fr) =~= fr);
    assert forall|j: int| 0 <= j < id.len() implies fr[j] != 35u8 by {
        assert(fr[j] == id[j]);
    }
    lemma_first_at(fr, 35u8, id.len() as int);
    assert(fr.take(id.len() as int) =~= id);
    assert(payload_text(fr, id.len() as int) =~= payload) by {
        let d = fr.skip(id.len() as int + 1);
        assert(d =~= payload + nl);
        if nl.len() > 0 {
            assert(d.drop_last() =~= payload);
        } else if d.len() > 0 {
            assert(d.last() == payload[payload.len() - 1]);
        }
    }
}

/// Decoding a candump line gives back its fields: the timestamp is the
/// seconds times a million plus the microseconds (saturating), the device
/// is the device text, and the frame is built from the identifier and
/// the payload, `R` marking a remote frame; a trailing newline changes
/// nothing. The seconds and microseconds are decimal numbers, the
/// identifier a hexadecimal one, the device UTF-8 without spaces, and the
/// payload `R` or pairs of hex digits.
pub proof fn law_decode_fields(
    secs: Seq<u8>,
    micros: Seq<u8>,
    device: Seq<u8>,
    id: Seq<u8>,
    payload: Seq<u8>,
    newline: bool,
)
    requires
        is_number_text(secs, 10),
        is_number_text(micros, 10),
        is_number_text(id, 16),
        valid_utf8(device),
        forall|i: int| 0 <= i < device.len() ==> device[i] != 32u8,
        payload == seq![82u8] || is_hex_text(payload),
    ensures
        decode_line(candump_line(secs, micros, device, id, payload, newline)) == decoded_fields(
            secs,
            micros,
            device,
            id,
            payload,
        ),
{
    let nl = if newline {
        seq![10u8]
    } else {
        Seq::<u8>::empty()
    };
    let t_field = seq![40u8] + secs + seq![46u8] + micros + seq![41u8];
    let fr = id + seq![35u8] + payload + nl;
    let rest = device + seq![32u8] + fr;
    let line = candump_line(secs, micros, device, id, payload, newline);
    assert(line =~= t_field + seq![32u8] + rest);
    lemma_timestamp_field(secs, micros);
    lemma_split_at_space(t_field, rest);
    lemma_split_at_space(device, fr);
    lemma_frame_field(id, payload, nl);
}

/// The digit character for a value below sixteen: `0-9`, then `A-F`.
pub open spec fn digit_char(d: nat) -> u8 {
    if d < 10 {
        (48 + d) as u8
    } else {
        (55 + d) as u8
    }
}

/// `n` written in `radix` (ten or sixteen), most significant digit first,
/// without leading zeros.
pub open spec fn number_text(n: nat, radix: nat) -> Seq<u8>
    recommends
        radix == 10 || radix == 16,
    decreases n,
{
    if radix < 2 || n < radix {
        seq![digit_char(n)]
    } else {
        proof {
            vstd::arithmetic::div_mod::lemma_div_decreases(n as int, radix as int);
        }
        number_text(n / radix, radix).push(digit_char(n % radix))
    }
}

/// Bytes written as pairs of upper-case hexadecimal digits.
pub open spec fn hex_text(data: Seq<u8>) -> Seq<u8> {
    Seq::new(
        data.len() * 2,
        |i: int|
            if i % 2 == 0 {
                digit_char((data[i / 2] / 16) as nat)
            } else {
                digit_char((data[i / 2] % 16) as nat)
            },
    )
}

/// A digit character reads back as its value.
proof fn lemma_digit_char(d: nat, radix: u32)
    requires
        d < radix,
        radix == 10 || radix == 16,
    ensures
        char_digit(digit_char(d) as char, radix) == Some(d),
        d < 16 ==> hex_digit_value(digit_char(d)) == Some(d as u8),
{
    let b = digit_char(d);
    assert((b as char) as u32 == b as u32);
}

/// A number written in ten or sixteen reads back as itself.
proof fn lemma_number_text(n: nat, radix: u32)
    requires
        radix == 10 || radix == 16,
    ensures
        number_text(n, radix as nat).len() > 0,
        digits_value(ascii_chars(number_text(n, radix as nat)), radix) == Some(n),
    decreases n,
{
    let r = radix as nat;
    let t = number_text(n, r);
    if n < r {
        lemma_digit_char(n, radix);
        let cs = ascii_chars(t);
        assert(cs.drop_last() =~= Seq::<char>::empty());
        assert(digits_value(Seq::<char>::empty(), radix) == Some(0nat));
    } else {
        lemma_number_text(n / r, radix);
        lemma_digit_char(n % r, radix);
        let high = number_text(n / r, r);
        assert(ascii_chars(t).drop_last() =~= ascii_chars(high));
        assert(ascii_chars(t).last() == digit_char(n % r) as char);
        assert(n == (n / r) * r + n % r) by (nonlinear_arith)
            requires
                r > 0,
        ;
    }
}

/// Bytes written as hex pairs read back as themselves.
proof fn lemma_hex_text(data: Seq<u8>)
    ensures
        is_hex_text(hex_text(data)),
        hex_bytes(hex_text(data)) == data,
{
    let t = hex_text(data);
    assert forall|i: int| 0 <= i < t.len() implies (#[trigger] hex_digit_value(t[i])) is Some by {
        let b = data[i / 2];
        if i % 2 == 0 {
            lemma_digit_char((b / 16) as nat, 16);
        } else {
            lemma_digit_char((b % 16) as nat, 16);
        }
    }
    assert(t.len() % 2 == 0);
    assert forall|j: int| 0 <= j < data.len() implies #[trigger] hex_bytes(t)[j] == data[j] by {
        let b = data[j];
        lemma_digit_char((b / 16) as nat, 16);
        lemma_digit_char((b % 16) as nat, 16);
        assert(t[2 * j] == digit_char((b / 16) as nat));
        assert(t[2 * j + 1] == digit_char((b % 16) as nat));
    }
    assert(hex_bytes(t) =~= data);
}

/// A frame written as a candump line is read back: the seconds and
/// microseconds in decimal, the identifier in hexadecimal, the payload as
/// hex pairs or `R` for a remote frame, with or without a final newline,
/// decode to the timestamp, the device and the frame with that
/// identifier, payload and remote flag.
pub proof fn law_written_line_reads_back(
    secs: u64,
    micros: u64,
    device: Seq<u8>,
    id: u32,
    data: Seq<u8>,
    remote: bool,
    newline: bool,
)
    requires
        valid_utf8(device),
        forall|i: int| 0 <= i < device.len() ==> device[i] != 32u8,
        id <= EFF_MASK,
        data.len() <= 8,
        remote ==> data.len() == 0,
    ensures
        decode_line(
            candump_line(
                number_text(secs as nat, 10),
                number_text(micros as nat, 10),
                device,
                number_text(id as nat, 16),
                if remote {
                    seq![82u8]
                } else {
                    hex_text(data)
                },
                newline,
            ),
        ) == Ok::<(u64, Seq<char>, FrameView), ParseError>(
            (
                add_saturating(mul_saturating(secs, 1_000_000), micros),
                decode_utf8(device),
                FrameView {
                    id: id,
                    data: data,
                    remote: remote,
                    error: false,
                    extended: id > SFF_MASK,
                    error_code: id,
                },
            ),
        ),
{
    lemma_number_text(secs as nat, 10);
    lemma_number_text(micros as nat, 10);
    lemma_number_text(id as nat, 16);
    lemma_hex_text(data);
    let payload = if remote {
        seq![82u8]
    } else {
        hex_text(data)
    };
    if !remote {
        if hex_text(data) == seq![82u8] {
            assert(hex_text(data).len() % 2 == 0);
        }
    } else {
        assert(data =~= Seq::<u8>::empty());
    }
    law_decode_fields(
        number_text(secs as nat, 10),
        number_text(micros as nat, 10),
        device,
        number_text(id as nat, 16),
        payload,
        newline,
    );
}

/// Reads `bytes` as UTF-8 text holding an unsigned number in `radix`.
pub fn parse_raw(bytes: &[u8], radix: u32) -> (res: Option<u64>)
    requires
        2 <= radix <= 36,
    ensures
        res == parse_number(bytes@, radix),
{
    match str_from_utf8(bytes) {
        Some(s) => str_to_u64_radix(s, radix),
        None => None,
    }
}

/// Splits off the text before the first space.
fn split_field(s: &[u8]) -> (res: (&[u8], Option<&[u8]>))
    ensures
        res.0@ == first_field(s@),
        match res.1 {
            Some(r) => after_first_field(s@) == Some(r@),
            None => after_first_field(s@) is None,
        },
{
    proof {
        lemma_scan_to(s@, 32, 0);
    }
    match find_byte(32, s) {
        Some(i) => {
            let n = s.len();
            assert(i < n);
            (slice_subrange(s, 0, i), Some(slice_subrange(s, i + 1, n)))
        },
        None => (s, None),
    }
}


/// Position of the first `needle`, found with `memchr` or by a plain walk.
fn locate(needle: u8, haystack: &[u8], with_memchr: bool) -> (res: Option<usize>)
    ensures
        match res {
            Some(i) => first_index_of(haystack@, needle) == Some(i as int) && i < haystack@.len(),
            None => first_index_of(haystack@, needle) is None,
        },
{
    if with_memchr {
        find_byte_memchr(needle, haystack)
    } else {
        find_byte(needle, haystack)
    }
}

/// Reads the timestamp field `(<seconds>.<microseconds>)`.
fn decode_timestamp(f: &[u8], with_memchr: bool) -> (res: Option<u64>)
    ensures
        res == timestamp_of(f@),
{
    let n = f.len();
    if n < 3 || f[0] != 40u8 || f[n - 1] != 41u8 {
        return None;
    }
    let inner = slice_subrange(f, 1, n - 1);
    let dot = match locate(46, inner, with_memchr) {
        Some(position) => position,
        None => return None,
    };
    let m = inner.len();
    let num = slice_subrange(inner, 0, dot);
    let mant = slice_subrange(inner, dot + 1, m);
    let secs = match parse_raw(num, 10) {
        Some(v) => v,
        None => return None,
    };
    let micros = match parse_raw(mant, 10) {
        Some(v) => v,
        None => return None,
    };
    let scaled = match secs.checked_mul(1_000_000) {
        Some(v) => v,
        None => u64::MAX,
    };
    Some(scaled.saturating_add(micros))
}

/// Reads the frame field `<hex id>#<hex payload or R>`.
fn decode_can_field(f: &[u8], with_memchr: bool) -> (res: Result<CanFrame, ParseError>)
    ensures
        match res {
            Ok(frame) => frame_of(f@) == Ok::<FrameView, ParseError>(frame@),
            Err(e) => frame_of(f@) == Err::<FrameView, ParseError>(e),
        },
{
    let n = f.len();
    let sep = match locate(35, f, with_memchr) {
        Some(position) => position,
        None => return Err(ParseError::InvalidCanFrame),
    };
    let can_id = slice_subrange(f, 0, sep);
    let mut can_data = slice_subrange(f, sep + 1, n);
    let d = can_data.len();
    if d > 0 && can_data[d - 1] == 10u8 {
        can_data = slice_subrange(can_data, 0, d - 1);
    }
    assert(can_data@ == payload_text(f@, sep as int));
    let rtr = can_data.len() == 1 && can_data[0] == 82u8;
    assert(rtr == (can_data@ == seq![82u8])) by {
        if can_data@ == seq![82u8] {
            assert(can_data@[0] == 82u8);
        }
        if rtr {
            assert(can_data@ =~= seq![82u8]);
        }
    }
    let data = if rtr {
        Vec::new()
    } else {
        match vec_from_hex(can_data) {
            Some(v) => v,
            None => return Err(ParseError::InvalidCanFrame),
        }
    };
    let id = match parse_raw(can_id, 16) {
        Some(v) => v,
        None => return Err(ParseError::InvalidCanFrame),
    };
    match CanFrame::new(id as u32, data.as_slice(), rtr, false) {
        Ok(frame) => Ok(frame),
        Err(e) => Err(ParseError::ConstructionError(e)),
    }
}

/// Decodes a line, finding the `.` and `#` separators with `memchr` or by
/// a plain walk.
fn decode_line_with(bytes: &[u8], with_memchr: bool) -> (res: Result<CanFrameData<'_>, ParseError>)
    ensures
        match res {
            Ok((t, device, frame)) => decode_line(bytes@) == Ok::<(u64, Seq<char>, FrameView), ParseError>((t, device@, frame@)),
            Err(e) => decode_line(bytes@) == Err::<(u64, Seq<char>, FrameView), ParseError>(e),
        },
{
    let (time_field, rest) = split_field(bytes);
    let t_us = match decode_timestamp(time_field, with_memchr) {
        Some(t) => t,
        None => return Err(ParseError::InvalidTimestamp),
    };
    let rest = match rest {
        Some(r) => r,
        None => return Err(ParseError::UnexpectedEndOfLine),
    };
    let (device_field, rest) = split_field(rest);
    let device = match str_from_utf8(device_field) {
        Some(name) => name,
        None => return Err(ParseError::InvalidDeviceName),
    };
    let rest = match rest {
        Some(r) => r,
        None => return Err(ParseError::UnexpectedEndOfLine),
    };
    let (can_raw, _) = split_field(rest);
    match decode_can_field(can_raw, with_memchr) {
        Ok(frame) => Ok((t_us, device, frame)),
        Err(e) => Err(e),
    }
}

/// Decodes one candump line, locating separators with `memchr`.
pub fn decode_frame_memchr(bytes: &[u8]) -> (res: Result<CanFrameData<'_>, ParseError>)
    ensures
        match res {
            Ok((t, device, frame)) => decode_line(bytes@) == Ok::<(u64, Seq<char>, FrameView), ParseError>((t, device@, frame@)),
            Err(e) => decode_line(bytes@) == Err::<(u64, Seq<char>, FrameView), ParseError>(e),
        },
{
    decode_line_with(bytes, true)
}

/// Decodes one candump line.
pub fn decode_frame(bytes: &[u8]) -> (res: Result<CanFrameData<'_>, ParseError>)
    ensures
        match res {
            Ok((t, device, frame)) => decode_line(bytes@) == Ok::<(u64, Seq<char>, FrameView), ParseError>((t, device@, frame@)),
            Err(e) => decode_line(bytes@) == Err::<(u64, Seq<char>, FrameView), ParseError>(e),
        },
{
    decode_line_with(bytes, false)
}

} // verus!
