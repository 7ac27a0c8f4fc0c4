//! Which settings produced a row: a short hash of the files the rules are
//! read from.

use vstd::prelude::*;

use vstd::string::StringSliceAdditionalSpecFns;

use vstd::utf8::encode_utf8;

use crate::text::{chars_of, text_of};

verus! {

/// Where the FNV-1a hash starts.
pub const OFFSET: u64 = 0xcbf2_9ce4_8422_2325;

/// What every byte is multiplied by.
pub const PRIME: u64 = 0x100_0000_01b3;

/// The twelve hex digits kept: everything below this.
pub const KEPT: u64 = 0x1_0000_0000_0000;

/// One byte mixed in: exclusive-or, then a wrapping multiply.
pub open spec fn mixed(hash: u64, byte: u8) -> u64 {
    (((hash ^ (byte as u64)) as nat * PRIME as nat) % 0x1_0000_0000_0000_0000nat) as u64
}

/// The FNV-1a hash of some bytes, mixed in from the first to the last.
pub open spec fn fnv(bytes: Seq<u8>) -> u64
    decreases bytes.len(),
{
    if bytes.len() == 0 {
        OFFSET
    } else {
        mixed(fnv(bytes.drop_last()), bytes.last())
    }
}

/// A hex digit, written lower case.
pub open spec fn hex_digit(d: nat) -> char {
    if d == 0 { '0' }
    else if d == 1 { '1' }
    else if d == 2 { '2' }
    else if d == 3 { '3' }
    else if d == 4 { '4' }
    else if d == 5 { '5' }
    else if d == 6 { '6' }
    else if d == 7 { '7' }
    else if d == 8 { '8' }
    else if d == 9 { '9' }
    else if d == 10 { 'a' }
    else if d == 11 { 'b' }
    else if d == 12 { 'c' }
    else if d == 13 { 'd' }
    else if d == 14 { 'e' }
    else { 'f' }
}

pub open spec fn pow16(n: nat) -> nat
    decreases n,
{
    if n == 0 { 1 } else { 16 * pow16((n - 1) as nat) }
}

/// A number as twelve hex digits, most significant first, padded with
/// leading zeros.
pub open spec fn hex12(value: nat) -> Seq<char> {
    Seq::new(12, |k: int| hex_digit((value / pow16((11 - k) as nat)) % 16))
}

/// The version of some text: its hash, cut to twelve hex digits.
pub open spec fn short_of(bytes: Seq<u8>) -> Seq<char> {
    hex12((fnv(bytes) as nat) % (KEPT as nat))
}

/// Whether a character is a lower-case hex digit.
pub open spec fn is_hex(c: char) -> bool {
    ('0' <= c && c <= '9') || ('a' <= c && c <= 'f')
}

fn hex_char(d: u64) -> (c: char)
    requires
        d < 16,
    ensures
        c == hex_digit(d as nat),
{
    match d {
        0 => '0',
        1 => '1',
        2 => '2',
        3 => '3',
        4 => '4',
        5 => '5',
        6 => '6',
        7 => '7',
        8 => '8',
        9 => '9',
        10 => 'a',
        11 => 'b',
        12 => 'c',
        13 => 'd',
        14 => 'e',
        _ => 'f',
    }
}

/// Every digit `hex12` writes is a hex digit, and there are twelve of them.
pub proof fn hex12_is_twelve_hex_digits(value: nat)
    ensures
        hex12(value).len() == 12,
        forall|k: int| 0 <= k < 12 ==> is_hex(#[trigger] hex12(value)[k]),
{
    assert forall|k: int| 0 <= k < 12 implies is_hex(#[trigger] hex12(value)[k]) by {
        let d = (value / pow16((11 - k) as nat)) % 16;
        assert(d < 16);
    }
}

/// **A twelve-character hash, and it is not a cryptographic one.**
///
/// It only has to say "these settings are not those settings": FNV-1a over
/// the text's UTF-8 bytes, kept to its low 48 bits and written as exactly
/// twelve lower-case hex digits.
pub fn short(text: &str) -> (res: String)
    ensures
        res@ == short_of(text.spec_bytes()),
        res@.len() == 12,
        forall|k: int| 0 <= k < 12 ==> is_hex(#[trigger] res@[k]),
{
    let bytes = text.as_bytes();
    let mut hash: u64 = OFFSET;
    let mut i: usize = 0;

    while i < bytes.len()
        invariant
            bytes@ == text.spec_bytes(),
            0 <= i <= bytes@.len(),
            hash == fnv(bytes@.take(i as int)),
        decreases bytes@.len() - i,
    {
        let byte = bytes[i];
        assert(bytes@.take((i + 1) as int).drop_last() == bytes@.take(i as int));
        hash = (hash ^ (byte as u64)).wrapping_mul(PRIME);
        i = i + 1;
    }
    assert(bytes@.take(bytes@.len() as int) == bytes@);

    let kept: u64 = hash & 0xFFFF_FFFF_FFFF;
    assert(hash & 0xFFFF_FFFF_FFFF == hash % 0x1_0000_0000_0000) by (bit_vector);

    let mut out: Vec<char> = Vec::new();
    let mut divisor: u64 = 0x1000_0000_0000; // 16 to the eleventh
    let mut k: usize = 0;
    assert(pow16(11) == 0x1000_0000_0000) by {
        reveal_with_fuel(pow16, 12);
    }

    while k < 12
        invariant
            0 <= k <= 12,
            kept as nat == (fnv(text.spec_bytes()) as nat) % (KEPT as nat),
            divisor as nat == pow16((11 - k) as nat) || k == 12,
            k < 12 ==> divisor > 0,
            out@ == hex12(kept as nat).take(k as int),
        decreases 12 - k,
    {
        let digit = (kept / divisor) % 16;
        out.push(hex_char(digit));
        assert(out@ == hex12(kept as nat).take((k + 1) as int));
        if k < 11 {
            assert(pow16((11 - k) as nat) == 16 * pow16((11 - k - 1) as nat));
            divisor = divisor / 16;
        }
        k = k + 1;
    }
    assert(out@ == hex12(kept as nat));
    proof {
        hex12_is_twelve_hex_digits(kept as nat);
    }
    text_of(out.as_slice())
}

/// What a settings file that would not read stands for.
pub open spec fn unreadable() -> Seq<char> {
    seq!['<', 'u', 'n', 'r', 'e', 'a', 'd', 'a', 'b', 'l', 'e', '>']
}

/// One file's share of what is hashed: its text, or the word for not being
/// able to read it, and then a separator.
pub open spec fn piece(read: Option<Seq<char>>) -> Seq<char> {
    match read {
        Some(text) => text,
        None => unreadable(),
    }.push('\0')
}

/// Everything hashed, file after file.
pub open spec fn soup_of(read: Seq<Option<Seq<char>>>) -> Seq<char>
    decreases read.len(),
{
    if read.len() == 0 {
        Seq::empty()
    } else {
        soup_of(read.drop_last()) + piece(read.last())
    }
}

/// What was read of each file, as plain values.
pub open spec fn texts(read: Seq<Option<String>>) -> Seq<Option<Seq<char>>> {
    read.map_values(|r: Option<String>| match r {
        Some(t) => Some(t@),
        None => None,
    })
}

/// **Which settings produced this row**: a short hash of what the settings
/// files held, in the order given.
///
/// `read` is each file's text, or `None` where it could not be read.
/// **Unreadable counts as a version too**, and a separator follows every
/// file, so moving a line from one file to the next changes the answer.
pub fn rules_version(read: &[Option<String>]) -> (res: String)
    ensures
        res@ == short_of(encode_utf8(soup_of(texts(read@)))),
        res@.len() == 12,
{
    let mut soup: Vec<char> = Vec::new();
    let mut i: usize = 0;

    while i < read.len()
        invariant
            0 <= i <= read@.len(),
            soup@ == soup_of(texts(read@).take(i as int)),
        decreases read@.len() - i,
    {
        let mut part = match &read[i] {
            Some(text) => chars_of(text.as_str()),
            None => {
                let word = "<unreadable>";
                proof {
                    reveal_strlit("<unreadable>");
                }
                let chars = chars_of(word);
                assert(chars@ == unreadable());
                chars
            }
        };
        part.push('\0');
        assert(texts(read@).take((i + 1) as int).drop_last() == texts(read@).take(i as int));
        soup.append(&mut part);
        i = i + 1;
    }
    assert(texts(read@).take(read@.len() as int) == texts(read@));

    let whole = text_of(soup.as_slice());
    short(whole.as_str())
}

} // verus!
