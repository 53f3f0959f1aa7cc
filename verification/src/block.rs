//! A single record of the chain.

use vstd::prelude::*;
use vstd::utf8::encode_utf8;
use crate::digest::digest;
use crate::digest::hashed_text;
use crate::digest::hashed_text_of;
use crate::digest::lemma_digest_equal_iff_md5_equal;
use crate::digest::lemma_hashed_text_single_change;
use crate::digest::lemma_utf8_injective;
use crate::digest::md5_compute;
use crate::digest::md5_of;
use crate::digest::to_lower_hex;
use crate::text::decimal;
use crate::text::push_decimal;

verus! {

/// One record: its position in the chain, its creation time in milliseconds,
/// its payload, the digest of the record before it and its own digest.
///
/// Nothing ties `hash` to the other fields when a record is built, so that a
/// record can be made from stored text as it stands and checked afterwards
/// with [`Block::is_valid`].
#[derive(Debug)]
pub struct Block {
    pub index: u32,
    pub timestamp: u128,
    pub data: String,
    pub previous_hash: String,
    pub hash: String,
}

/// What a [`Block`] holds, as mathematical values.
pub struct BlockView {
    pub index: nat,
    pub timestamp: nat,
    pub data: Seq<char>,
    pub previous_hash: Seq<char>,
    pub hash: Seq<char>,
}

impl BlockView {
    /// The digest that the four hashed fields call for.
    pub open spec fn expected_hash(self) -> Seq<char> {
        digest(self.index, self.timestamp, self.data, self.previous_hash)
    }

    /// Whether the stored digest is the digest of the stored fields.
    pub open spec fn structurally_valid(self) -> bool {
        self.hash == self.expected_hash()
    }

    /// The bytes that MD5 is applied to for this record.
    pub open spec fn hashed_bytes(self) -> Seq<u8> {
        encode_utf8(hashed_text(self.index, self.timestamp, self.data, self.previous_hash))
    }

    /// Whether exactly one of the four hashed fields is another in `other`.
    pub open spec fn differs_in_one_hashed_field(self, other: BlockView) -> bool {
        (if self.index == other.index { 0int } else { 1int })
            + (if self.timestamp == other.timestamp { 0int } else { 1int })
            + (if self.data == other.data { 0int } else { 1int })
            + (if self.previous_hash == other.previous_hash { 0int } else { 1int }) == 1
    }

    /// Whether every field is the same as in `other`, the stored digest aside.
    pub open spec fn same_hashed_fields(self, other: BlockView) -> bool {
        &&& self.index == other.index
        &&& self.timestamp == other.timestamp
        &&& self.data == other.data
        &&& self.previous_hash == other.previous_hash
    }

    /// The one-line description of a record.
    pub open spec fn description(self) -> Seq<char> {
        "Block { index: "@ + decimal(self.index) + ", timestamp: "@ + decimal(self.timestamp)
            + ", data: "@ + self.data + ", previous_hash: "@ + self.previous_hash + ", hash: "@
            + self.hash + " }"@
    }
}

impl View for Block {
    type V = BlockView;

    open spec fn view(&self) -> BlockView {
        BlockView {
            index: self.index as nat,
            timestamp: self.timestamp as nat,
            data: self.data@,
            previous_hash: self.previous_hash@,
            hash: self.hash@,
        }
    }
}

impl DeepView for Block {
    type V = BlockView;

    open spec fn deep_view(&self) -> BlockView {
        self@
    }
}

impl Clone for Block {
    fn clone(&self) -> (copy: Block)
        ensures
            copy == *self,
    {
        Block {
            index: self.index,
            timestamp: self.timestamp,
            data: self.data.clone(),
            previous_hash: self.previous_hash.clone(),
            hash: self.hash.clone(),
        }
    }
}

impl Block {
    /// Builds a record from its five fields. The digest is taken as given, not
    /// recomputed.
    pub fn new(
        index: u32,
        timestamp: u128,
        data: String,
        previous_hash: String,
        hash: String,
    ) -> (block: Block)
        ensures
            block.index == index,
            block.timestamp == timestamp,
            block.data == data,
            block.previous_hash == previous_hash,
            block.hash == hash,
    {
        Block { index, timestamp, data, previous_hash, hash }
    }

    /// The digest of the given four fields, as 32 lowercase hexadecimal
    /// characters.
    pub fn calculate_hash(index: u32, timestamp: u128, data: &str, previous_hash: &str) -> (out:
        String)
        ensures
            out@ == digest(index as nat, timestamp as nat, data@, previous_hash@),
            out@.len() == 32,
    {
        let text = hashed_text_of(index, timestamp, data, previous_hash);
        let sum: [u8; 16] = md5_compute(text.as_str().as_bytes());
        to_lower_hex(sum.as_slice())
    }

    /// Recomputes the digest of the stored fields and compares it with the
    /// stored digest.
    pub fn is_valid(&self) -> (ok: bool)
        ensures
            ok == self@.structurally_valid(),
    {
        let expected = Block::calculate_hash(
            self.index,
            self.timestamp,
            self.data.as_str(),
            self.previous_hash.as_str(),
        );
        self.hash == expected
    }

    /// The one-line description of this record.
    pub fn to_string(&self) -> (out: String)
        ensures
            out@ == self@.description(),
    {
        let mut out = String::new();
        out.append("Block { index: ");
        push_decimal(&mut out, self.index as u128);
        out.append(", timestamp: ");
        push_decimal(&mut out, self.timestamp);
        out.append(", data: ");
        out.append(self.data.as_str());
        out.append(", previous_hash: ");
        out.append(self.previous_hash.as_str());
        out.append(", hash: ");
        out.append(self.hash.as_str());
        out.append(" }");
        out
    }
}

/// A record whose stored digest is the digest of its four other fields is
/// structurally valid.
pub proof fn lemma_consistent_record_is_valid(block: Block)
    requires
        digest(
            block.index as nat,
            block.timestamp as nat,
            block.data@,
            block.previous_hash@,
        ) == block.hash@,
    ensures
        block@.structurally_valid(),
{
}

/// Replacing the stored digest of a structurally valid record by any other
/// text makes the record invalid.
pub proof fn lemma_changed_hash_is_detected(before: Block, after: Block)
    requires
        before@.structurally_valid(),
        after@.same_hashed_fields(before@),
        after@.hash != before@.hash,
    ensures
        !after@.structurally_valid(),
{
}

/// Changing exactly one of the four hashed fields of a record changes the
/// bytes that are hashed.
pub proof fn lemma_single_change_alters_hashed_bytes(before: Block, after: Block)
    requires
        before@.differs_in_one_hashed_field(after@),
    ensures
        before@.hashed_bytes() != after@.hashed_bytes(),
{
    let b = before@;
    let a = after@;
    lemma_hashed_text_single_change(
        b.index,
        b.timestamp,
        b.data,
        b.previous_hash,
        a.index,
        a.timestamp,
        a.data,
        a.previous_hash,
    );
    if b.hashed_bytes() == a.hashed_bytes() {
        lemma_utf8_injective(
            hashed_text(b.index, b.timestamp, b.data, b.previous_hash),
            hashed_text(a.index, a.timestamp, a.data, a.previous_hash),
        );
    }
}

/// When the hashed fields of a structurally valid record change while its
/// stored digest stays, the record stays valid only if MD5 gives the old and
/// the new hashed bytes the same sum.
pub proof fn lemma_changed_fields_are_detected(before: Block, after: Block)
    requires
        before@.structurally_valid(),
        after@.hash == before@.hash,
    ensures
        after@.structurally_valid() <==> md5_of(after@.hashed_bytes()) == md5_of(
            before@.hashed_bytes(),
        ),
{
    let b = before@;
    let a = after@;
    lemma_digest_equal_iff_md5_equal(
        a.index,
        a.timestamp,
        a.data,
        a.previous_hash,
        b.index,
        b.timestamp,
        b.data,
        b.previous_hash,
    );
}

} // verus!
