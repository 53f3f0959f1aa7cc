//! Digests: MD5 over the UTF-8 bytes of a text, rendered as lowercase
//! hexadecimal.

use vstd::prelude::*;
use vstd::utf8::encode_utf8;
use vstd::utf8::encode_utf8_decode_utf8;
use crate::split::break_free;
use crate::split::comma_free;
use crate::text::decimal;
use crate::text::lemma_decimal_injective;
use crate::text::push_decimal;

verus! {

/// The sixteen bytes that MD5 assigns to `data`.
pub uninterp spec fn md5_of(data: Seq<u8>) -> Seq<u8>;

/// Calls `md5::compute` on `data` and hands out the sixteen bytes of the
/// `md5::Digest` it returns. The MD5 function itself is not modelled: the
/// contract only gives its result the name [`md5_of`].
#[verifier::external_body]
pub(crate) fn md5_compute(data: &[u8]) -> (out: [u8; 16])
    ensures
        out@ == md5_of(data@),
{
    md5::compute(data).0
}

/// The character that stands for the hexadecimal digit `d`.
pub open spec fn hex_digit(d: nat) -> char {
    if d < 10 {
        ('0' as int + d) as char
    } else {
        ('a' as int + d - 10) as char
    }
}

/// Two lowercase hexadecimal digits per byte, high half first.
pub open spec fn lower_hex(bytes: Seq<u8>) -> Seq<char> {
    Seq::new(
        2 * bytes.len(),
        |i: int|
            if i % 2 == 0 {
                hex_digit((bytes[i / 2] / 16) as nat)
            } else {
                hex_digit((bytes[i / 2] % 16) as nat)
            },
    )
}

/// The text that is hashed for a record: position, timestamp, payload and
/// predecessor digest, written one after the other with nothing in between.
pub open spec fn hashed_text(
    index: nat,
    timestamp: nat,
    data: Seq<char>,
    previous_hash: Seq<char>,
) -> Seq<char> {
    decimal(index) + decimal(timestamp) + data + previous_hash
}

/// The digest of a record's four hashed fields: the MD5 of the UTF-8 bytes
/// of their [`hashed_text`], in lowercase hexadecimal.
pub open spec fn digest(
    index: nat,
    timestamp: nat,
    data: Seq<char>,
    previous_hash: Seq<char>,
) -> Seq<char> {
    lower_hex(md5_of(encode_utf8(hashed_text(index, timestamp, data, previous_hash))))
}

fn hex_digit_char(d: u8) -> (c: char)
    requires
        d < 16,
    ensures
        c == hex_digit(d as nat),
{
    if d < 10 {
        ('0' as u8 + d) as char
    } else {
        ('a' as u8 + (d - 10)) as char
    }
}

/// Renders `bytes` in lowercase hexadecimal.
pub fn to_lower_hex(bytes: &[u8]) -> (out: String)
    ensures
        out@ == lower_hex(bytes@),
{
    let mut out = String::new();
    let mut i: usize = 0;
    while i < bytes.len()
        invariant
            i <= bytes.len(),
            out@ == lower_hex(bytes@.take(i as int)),
        decreases bytes.len() - i,
    {
        let b: u8 = bytes[i];
        out.push(hex_digit_char(b / 16));
        out.push(hex_digit_char(b % 16));
        i += 1;
    }
    out
}

/// Writes the text that is hashed for a record with the given four fields.
pub fn hashed_text_of(index: u32, timestamp: u128, data: &str, previous_hash: &str) -> (text:
    String)
    ensures
        text@ == hashed_text(index as nat, timestamp as nat, data@, previous_hash@),
{
    let mut text = String::new();
    push_decimal(&mut text, index as u128);
    push_decimal(&mut text, timestamp);
    text.append(data);
    text.append(previous_hash);
    text
}

/// Different hexadecimal digits are written with different characters.
pub proof fn lemma_hex_digit_injective(a: nat, b: nat)
    requires
        a < 16,
        b < 16,
        hex_digit(a) == hex_digit(b),
    ensures
        a == b,
{
}

/// Different byte sequences have different hexadecimal renderings.
pub proof fn lemma_lower_hex_injective(a: Seq<u8>, b: Seq<u8>)
    requires
        lower_hex(a) == lower_hex(b),
    ensures
        a == b,
{
    assert(lower_hex(a).len() == 2 * a.len());
    assert(lower_hex(b).len() == 2 * b.len());
    assert forall|j: int| 0 <= j < a.len() implies a[j] == b[j] by {
        assert(lower_hex(a)[2 * j] == hex_digit((a[j] / 16) as nat));
        assert(lower_hex(b)[2 * j] == hex_digit((b[j] / 16) as nat));
        assert(lower_hex(a)[2 * j + 1] == hex_digit((a[j] % 16) as nat));
        assert(lower_hex(b)[2 * j + 1] == hex_digit((b[j] % 16) as nat));
        lemma_hex_digit_injective((a[j] / 16) as nat, (b[j] / 16) as nat);
        lemma_hex_digit_injective((a[j] % 16) as nat, (b[j] % 16) as nat);
    }
}

/// A hexadecimal rendering holds neither comma nor line break.
pub proof fn lemma_lower_hex_plain(bytes: Seq<u8>)
    ensures
        comma_free(lower_hex(bytes)),
        break_free(lower_hex(bytes)),
{
}

/// Changing exactly one of the four hashed fields of a record changes the
/// text that is hashed.
pub proof fn lemma_hashed_text_single_change(
    index: nat,
    timestamp: nat,
    data: Seq<char>,
    previous_hash: Seq<char>,
    index2: nat,
    timestamp2: nat,
    data2: Seq<char>,
    previous_hash2: Seq<char>,
)
    requires
        (if index == index2 { 0int } else { 1int })
            + (if timestamp == timestamp2 { 0int } else { 1int })
            + (if data == data2 { 0int } else { 1int })
            + (if previous_hash == previous_hash2 { 0int } else { 1int }) == 1,
    ensures
        hashed_text(index, timestamp, data, previous_hash) != hashed_text(
            index2,
            timestamp2,
            data2,
            previous_hash2,
        ),
{
    let t1 = hashed_text(index, timestamp, data, previous_hash);
    let t2 = hashed_text(index2, timestamp2, data2, previous_hash2);
    if t1 == t2 {
        let head = decimal(index) + decimal(timestamp);
        if index != index2 {
            let tail = decimal(timestamp) + data + previous_hash;
            assert(t1 =~= decimal(index) + tail);
            assert(t2 =~= decimal(index2) + tail);
            lemma_concat_cancel_right(decimal(index), decimal(index2), tail);
            lemma_decimal_injective(index, index2);
        } else if timestamp != timestamp2 {
            let tail = data + previous_hash;
            assert(t1 =~= decimal(index) + (decimal(timestamp) + tail));
            assert(t2 =~= decimal(index) + (decimal(timestamp2) + tail));
            lemma_concat_cancel_left(
                decimal(index),
                decimal(timestamp) + tail,
                decimal(timestamp2) + tail,
            );
            lemma_concat_cancel_right(decimal(timestamp), decimal(timestamp2), tail);
            lemma_decimal_injective(timestamp, timestamp2);
        } else if data != data2 {
            assert(t1 =~= head + (data + previous_hash));
            assert(t2 =~= head + (data2 + previous_hash));
            lemma_concat_cancel_left(head, data + previous_hash, data2 + previous_hash);
            lemma_concat_cancel_right(data, data2, previous_hash);
        } else {
            lemma_concat_cancel_left(head + data, previous_hash, previous_hash2);
        }
    }
}

/// Two digests are the same exactly if MD5 gives the bytes of the two
/// hashed texts the same sum.
pub proof fn lemma_digest_equal_iff_md5_equal(
    index: nat,
    timestamp: nat,
    data: Seq<char>,
    previous_hash: Seq<char>,
    index2: nat,
    timestamp2: nat,
    data2: Seq<char>,
    previous_hash2: Seq<char>,
)
    ensures
        digest(index, timestamp, data, previous_hash) == digest(
            index2,
            timestamp2,
            data2,
            previous_hash2,
        ) <==> md5_of(encode_utf8(hashed_text(index, timestamp, data, previous_hash))) == md5_of(
            encode_utf8(hashed_text(index2, timestamp2, data2, previous_hash2)),
        ),
{
    if digest(index, timestamp, data, previous_hash) == digest(
        index2,
        timestamp2,
        data2,
        previous_hash2,
    ) {
        lemma_lower_hex_injective(
            md5_of(encode_utf8(hashed_text(index, timestamp, data, previous_hash))),
            md5_of(encode_utf8(hashed_text(index2, timestamp2, data2, previous_hash2))),
        );
    }
}

/// Different texts have different UTF-8 bytes.
pub proof fn lemma_utf8_injective(a: Seq<char>, b: Seq<char>)
    requires
        encode_utf8(a) == encode_utf8(b),
    ensures
        a == b,
{
    encode_utf8_decode_utf8(a);
    encode_utf8_decode_utf8(b);
}

proof fn lemma_concat_cancel_left(head: Seq<char>, a: Seq<char>, b: Seq<char>)
    requires
        head + a == head + b,
    ensures
        a == b,
{
    assert((head + a).skip(head.len() as int) =~= a);
    assert((head + b).skip(head.len() as int) =~= b);
}

proof fn lemma_concat_cancel_right(a: Seq<char>, b: Seq<char>, tail: Seq<char>)
    requires
        a + tail == b + tail,
    ensures
        a == b,
{
    assert((a + tail).take(a.len() as int) =~= a);
    assert((b + tail).take(b.len() as int) =~= b);
}

} // verus!
