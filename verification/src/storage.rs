//! The stored form of a chain: text with one line of comma-separated fields
//! per record.
//!
//! A line holds position, timestamp, payload, predecessor digest and own
//! digest, followed by a sixth field that says whether the record was
//! structurally valid when the line was written. The sixth field is written
//! for the reader's eye only; reading a line ignores it.
//!
//! Fields are written as they are. A payload or digest that holds a comma
//! or a line break therefore does not read back as it was written.

use vstd::prelude::*;
use crate::block::Block;
use crate::block::BlockView;
use crate::chain::chain_valid;
use crate::chain::link_valid;
use crate::clock::current_timestamp;
use crate::digest::digest;
use crate::digest::lemma_lower_hex_plain;
use crate::digest::md5_of;
use crate::split::break_free;
use crate::split::comma_free;
use crate::split::ends_with_return;
use crate::split::join_lines;
use crate::split::lemma_decimal_plain;
use crate::split::lemma_split_joined_lines;
use crate::split::lemma_split_pieces_free;
use crate::split::lemma_split_step;
use crate::split::lines_of;
use crate::split::split_commas;
use crate::split::split_fields;
use crate::split::split_lines;
use crate::split::text_of_lines;
use crate::text::decimal;
use crate::text::lemma_parse_decimal;
use crate::text::parse_u128;
use crate::text::parse_u32;
use crate::text::parse_unsigned;
use crate::text::push_decimal;

verus! {

/// How a validity flag is written.
pub open spec fn flag_text(flag: bool) -> Seq<char> {
    if flag {
        "true"@
    } else {
        "false"@
    }
}

/// The line that stores `block` together with `flag`.
pub open spec fn record_line(block: BlockView, flag: bool) -> Seq<char> {
    decimal(block.index) + seq![','] + decimal(block.timestamp) + seq![','] + block.data + seq![
        ',',
    ] + block.previous_hash + seq![','] + block.hash + seq![','] + flag_text(flag)
}

/// The number that `field` reads as, or zero if it is no numeral or exceeds
/// `max`.
pub open spec fn number_or_zero(field: Seq<char>, max: nat) -> nat {
    match parse_unsigned(field, max) {
        Some(n) => n,
        None => 0,
    }
}

/// The record that `line` stores, if the line has at least five fields.
pub open spec fn parse_line(line: Seq<char>) -> Option<BlockView> {
    let fields = split_fields(line);
    if fields.len() >= 5 {
        Some(
            BlockView {
                index: number_or_zero(fields[0], u32::MAX as nat),
                timestamp: number_or_zero(fields[1], u128::MAX as nat),
                data: fields[2],
                previous_hash: fields[3],
                hash: fields[4],
            },
        )
    } else {
        None
    }
}

/// The records that `lines` store, in order; lines with fewer than five
/// fields are left out.
pub open spec fn parse_lines(lines: Seq<Seq<char>>) -> Seq<BlockView>
    decreases lines.len(),
{
    if lines.len() == 0 {
        Seq::empty()
    } else {
        let before = parse_lines(lines.drop_last());
        match parse_line(lines.last()) {
            Some(block) => before.push(block),
            None => before,
        }
    }
}

/// The lines that store `blocks`, each flagged with the structural validity
/// of its record.
pub open spec fn record_lines(blocks: Seq<BlockView>) -> Seq<Seq<char>> {
    Seq::new(blocks.len(), |i: int| record_line(blocks[i], blocks[i].structurally_valid()))
}

/// Whether payload, predecessor digest and own digest of `block` are free of
/// commas.
pub open spec fn fields_comma_free(block: BlockView) -> bool {
    &&& comma_free(block.data)
    &&& comma_free(block.previous_hash)
    &&& comma_free(block.hash)
}

/// Whether payload, predecessor digest and own digest of `block` are free of
/// line breaks.
pub open spec fn fields_break_free(block: BlockView) -> bool {
    &&& break_free(block.data)
    &&& break_free(block.previous_hash)
    &&& break_free(block.hash)
}

/// The text that stores `blocks`: their lines, each followed by a line
/// break.
pub open spec fn stored_text(blocks: Seq<BlockView>) -> Seq<char> {
    join_lines(record_lines(blocks))
}

/// The records that `text` stores: those of its lines that have at least
/// five fields.
pub open spec fn parse_text(text: Seq<char>) -> Seq<BlockView> {
    parse_lines(split_lines(text))
}

/// The three records of the starter chain made at time `now`.
///
/// The first record is a structurally valid genesis record with predecessor
/// `"0"`. The second and third name the digest stored in the record before
/// them; their own digests are taken over the longer payloads
/// `"First Block after Genesis"` and `"Second Block after Genesis"`, not over
/// the payloads they store.
pub open spec fn mockup(now: nat) -> Seq<BlockView> {
    let h0 = digest(0, now, "Genesis Block"@, "0"@);
    let h1 = digest(1, now, "First Block after Genesis"@, h0);
    let h2 = digest(2, now, "Second Block after Genesis"@, h1);
    seq![
        BlockView {
            index: 0,
            timestamp: now,
            data: "Genesis Block"@,
            previous_hash: "0"@,
            hash: h0,
        },
        BlockView { index: 1, timestamp: now, data: "First Block"@, previous_hash: h0, hash: h1 },
        BlockView { index: 2, timestamp: now, data: "Second Block"@, previous_hash: h1, hash: h2 },
    ]
}

/// The lines that store the starter chain made at time `now`, each flagged
/// `true`.
pub open spec fn mockup_record_lines(now: nat) -> Seq<Seq<char>> {
    Seq::new(3, |i: int| record_line(mockup(now)[i], true))
}

/// Writes the line that stores `block` together with `flag`.
pub fn line_from_block(block: &Block, flag: bool) -> (line: String)
    ensures
        line@ == record_line(block@, flag),
{
    let mut line = String::new();
    push_decimal(&mut line, block.index as u128);
    line.push(',');
    push_decimal(&mut line, block.timestamp);
    line.push(',');
    line.append(block.data.as_str());
    line.push(',');
    line.append(block.previous_hash.as_str());
    line.push(',');
    line.append(block.hash.as_str());
    line.push(',');
    if flag {
        line.append("true");
    } else {
        line.append("false");
    }
    line
}

/// Writes one line per record, in order, each flagged with the structural
/// validity of its record as recomputed now.
pub fn lines_from_blocks(blocks: &Vec<Block>) -> (lines: Vec<String>)
    ensures
        lines.deep_view() == record_lines(blocks.deep_view()),
{
    let mut lines: Vec<String> = Vec::new();
    let mut i: usize = 0;
    while i < blocks.len()
        invariant
            i <= blocks.len(),
            lines.len() == i,
            forall|j: int|
                0 <= j < i ==> (#[trigger] lines[j])@ == record_line(
                    blocks[j]@,
                    blocks[j]@.structurally_valid(),
                ),
        decreases blocks.len() - i,
    {
        let flag = blocks[i].is_valid();
        lines.push(line_from_block(&blocks[i], flag));
        i += 1;
    }
    lines
}

/// Reads the record that `line` stores. A line with fewer than five fields
/// stores none. A position or timestamp that is no numeral, or too large,
/// reads as zero.
pub fn block_from_line(line: &str) -> (block: Option<Block>)
    ensures
        match block {
            Some(b) => parse_line(line@) == Some(b@),
            None => parse_line(line@) is None,
        },
{
    let fields = split_commas(line);
    if fields.len() >= 5 {
        let index: u32 = match parse_u32(fields[0].as_str()) {
            Some(n) => n,
            None => 0,
        };
        let timestamp: u128 = match parse_u128(fields[1].as_str()) {
            Some(n) => n,
            None => 0,
        };
        let block = Block::new(
            index,
            timestamp,
            fields[2].clone(),
            fields[3].clone(),
            fields[4].clone(),
        );
        Some(block)
    } else {
        None
    }
}

/// Reads the records that `lines` store, in order, leaving out the lines
/// with fewer than five fields.
pub fn blocks_from_lines(lines: &Vec<String>) -> (blocks: Vec<Block>)
    ensures
        blocks.deep_view() == parse_lines(lines.deep_view()),
{
    let mut blocks: Vec<Block> = Vec::new();
    let mut i: usize = 0;
    while i < lines.len()
        invariant
            i <= lines.len(),
            blocks.deep_view() == parse_lines(lines.deep_view().take(i as int)),
        decreases lines.len() - i,
    {
        assert(lines.deep_view().take(i + 1).drop_last() =~= lines.deep_view().take(i as int));
        match block_from_line(lines[i].as_str()) {
            Some(block) => {
                blocks.push(block);
            },
            None => {},
        }
        i += 1;
    }
    assert(lines.deep_view().take(i as int) =~= lines.deep_view());
    blocks
}

/// Builds the three records of the starter chain made at time `now`.
pub fn mockup_blocks(now: u128) -> (blocks: Vec<Block>)
    ensures
        blocks.deep_view() == mockup(now as nat),
{
    let h0 = Block::calculate_hash(0, now, "Genesis Block", "0");
    let h1 = Block::calculate_hash(1, now, "First Block after Genesis", h0.as_str());
    let h2 = Block::calculate_hash(2, now, "Second Block after Genesis", h1.as_str());
    let mut blocks: Vec<Block> = Vec::new();
    blocks.push(
        Block::new(
            0,
            now,
            "Genesis Block".to_owned(),
            "0".to_owned(),
            h0.clone(),
        ),
    );
    blocks.push(Block::new(1, now, "First Block".to_owned(), h0, h1.clone()));
    blocks.push(Block::new(2, now, "Second Block".to_owned(), h1, h2));
    blocks
}

/// Writes the lines that store the starter chain made at time `now`. Every
/// line is flagged `true`.
pub fn mockup_lines(now: u128) -> (lines: Vec<String>)
    ensures
        lines.deep_view() == mockup_record_lines(now as nat),
{
    let blocks = mockup_blocks(now);
    assert(blocks.deep_view().len() == 3);
    let mut lines: Vec<String> = Vec::new();
    let mut i: usize = 0;
    while i < blocks.len()
        invariant
            i <= blocks.len(),
            blocks.len() == 3,
            blocks.deep_view() == mockup(now as nat),
            lines.len() == i,
            forall|j: int| 0 <= j < i ==> (#[trigger] lines[j])@ == record_line(blocks[j]@, true),
        decreases blocks.len() - i,
    {
        lines.push(line_from_block(&blocks[i], true));
        i += 1;
    }
    assert forall|j: int| 0 <= j < 3 implies lines.deep_view()[j] == mockup_record_lines(
        now as nat,
    )[j] by {
        assert(blocks.deep_view()[j] == blocks[j]@);
    }
    lines
}

/// Writes the text that stores `blocks`, one line per record, each flagged
/// with the structural validity of its record as recomputed now.
pub fn text_from_blocks(blocks: &Vec<Block>) -> (text: String)
    ensures
        text@ == stored_text(blocks.deep_view()),
{
    let lines = lines_from_blocks(blocks);
    text_of_lines(&lines)
}

/// Reads the records that `text` stores, in order, leaving out the lines
/// with fewer than five fields.
pub fn blocks_from_text(text: &str) -> (blocks: Vec<Block>)
    ensures
        blocks.deep_view() == parse_text(text@),
{
    let lines = lines_of(text);
    blocks_from_lines(&lines)
}

/// Writes the text that stores the starter chain made at time `now`.
pub fn mockup_text(now: u128) -> (text: String)
    ensures
        text@ == join_lines(mockup_record_lines(now as nat)),
{
    let lines = mockup_lines(now);
    text_of_lines(&lines)
}

/// Writes the text that stores the starter chain made at the time the system
/// clock shows now. There is no text when the clock is set to a time before
/// the Unix epoch.
pub fn mockup_text_now() -> (text: Option<String>)
    ensures
        text matches Some(t) ==> exists|now: u128|
            t@ == join_lines(#[trigger] mockup_record_lines(now as nat)),
{
    mockup_text_at(current_timestamp())
}

/// Writes the text that stores the starter chain made at the time that a
/// reading of the clock gave. A reading that gave no time gives no text.
pub fn mockup_text_at(reading: Option<u128>) -> (text: Option<String>)
    ensures
        reading is None ==> text is None,
        reading matches Some(now) ==> text matches Some(t) && t@ == join_lines(
            mockup_record_lines(now as nat),
        ),
{
    match reading {
        Some(now) => Some(mockup_text(now)),
        None => None,
    }
}

/// In the starter chain the first record is structurally valid, and each of
/// the other two names the digest stored in the record before it.
pub proof fn lemma_mockup_is_linked(now: u128)
    ensures
        mockup(now as nat).len() == 3,
        mockup(now as nat)[0].structurally_valid(),
        mockup(now as nat)[1].previous_hash == mockup(now as nat)[0].hash,
        mockup(now as nat)[2].previous_hash == mockup(now as nat)[1].hash,
{
}

/// What `split_fields` makes of a stored line whose fields are free of
/// commas: the five fields, then whatever the flag splits into.
proof fn lemma_split_record_line(block: BlockView, flag: bool)
    requires
        fields_comma_free(block),
    ensures
        split_fields(record_line(block, flag)) == seq![
            decimal(block.index),
            decimal(block.timestamp),
            block.data,
            block.previous_hash,
            block.hash,
        ] + split_fields(flag_text(flag)),
{
    let comma = seq![','];
    let r5 = flag_text(flag);
    let r4 = block.hash + comma + r5;
    let r3 = block.previous_hash + comma + r4;
    let r2 = block.data + comma + r3;
    let r1 = decimal(block.timestamp) + comma + r2;
    let r0 = decimal(block.index) + comma + r1;
    assert(record_line(block, flag) =~= r0);
    lemma_decimal_plain(block.index);
    lemma_decimal_plain(block.timestamp);
    lemma_split_step(decimal(block.index), ',', r1);
    lemma_split_step(decimal(block.timestamp), ',', r2);
    lemma_split_step(block.data, ',', r3);
    lemma_split_step(block.previous_hash, ',', r4);
    lemma_split_step(block.hash, ',', r5);
    assert(split_fields(r0) =~= seq![
        decimal(block.index),
        decimal(block.timestamp),
        block.data,
        block.previous_hash,
        block.hash,
    ] + split_fields(r5));
}

/// Reading the line that stores a record gives the record back exactly if
/// neither its payload nor its two digests hold a comma.
pub proof fn lemma_line_round_trip(block: Block, flag: bool)
    ensures
        parse_line(record_line(block@, flag)) == Some(block@) <==> fields_comma_free(block@),
{
    let line = record_line(block@, flag);
    if fields_comma_free(block@) {
        lemma_split_record_line(block@, flag);
        lemma_parse_decimal(block@.index, u32::MAX as nat);
        lemma_parse_decimal(block@.timestamp, u128::MAX as nat);
    }
    if parse_line(line) == Some(block@) {
        lemma_split_pieces_free(line, ',');
        let fields = split_fields(line);
        assert(comma_free(fields[2]) && comma_free(fields[3]) && comma_free(fields[4]));
    }
}

/// Reading the lines that store a sequence of records gives the records
/// back, if no payload and no digest among them holds a comma.
proof fn lemma_record_lines_round_trip(blocks: Seq<BlockView>)
    requires
        forall|i: int|
            0 <= i < blocks.len() ==> {
                &&& fields_comma_free(#[trigger] blocks[i])
                &&& blocks[i].index <= u32::MAX
                &&& blocks[i].timestamp <= u128::MAX
            },
    ensures
        parse_lines(record_lines(blocks)) == blocks,
    decreases blocks.len(),
{
    let lines = record_lines(blocks);
    if blocks.len() > 0 {
        let last = blocks.last();
        lemma_record_lines_round_trip(blocks.drop_last());
        assert(lines.drop_last() =~= record_lines(blocks.drop_last()));
        lemma_split_record_line(last, last.structurally_valid());
        lemma_parse_decimal(last.index, u32::MAX as nat);
        lemma_parse_decimal(last.timestamp, u128::MAX as nat);
        assert(parse_line(lines.last()) == Some(last));
    }
}

/// Storing records as lines and reading the lines again gives the same
/// records, if no payload and no digest among them holds a comma.
pub proof fn lemma_store_and_reload(blocks: Vec<Block>)
    requires
        forall|i: int| 0 <= i < blocks.len() ==> fields_comma_free(#[trigger] blocks[i]@),
    ensures
        parse_lines(record_lines(blocks.deep_view())) == blocks.deep_view(),
{
    assert forall|i: int| 0 <= i < blocks.deep_view().len() implies {
        &&& fields_comma_free(#[trigger] blocks.deep_view()[i])
        &&& blocks.deep_view()[i].index <= u32::MAX
        &&& blocks.deep_view()[i].timestamp <= u128::MAX
    } by {
        assert(blocks.deep_view()[i] == blocks[i]@);
    }
    lemma_record_lines_round_trip(blocks.deep_view());
}

/// The line that stores a record holds no line break and does not end with
/// a carriage return, if neither the payload nor the two digests of the
/// record hold a line break.
proof fn lemma_record_line_is_one_line(block: BlockView, flag: bool)
    requires
        fields_break_free(block),
    ensures
        break_free(record_line(block, flag)),
        !ends_with_return(record_line(block, flag)),
{
    reveal_strlit("true");
    reveal_strlit("false");
    lemma_decimal_plain(block.index);
    lemma_decimal_plain(block.timestamp);
    let line = record_line(block, flag);
    let a = decimal(block.index) + seq![','];
    let b = a + decimal(block.timestamp) + seq![','];
    let c = b + block.data + seq![','];
    let d = c + block.previous_hash + seq![','];
    let e = d + block.hash + seq![','];
    assert(line =~= e + flag_text(flag));
    assert(break_free(e));
    assert(line.last() == flag_text(flag).last());
}

/// Storing records as text and reading the text again gives the same
/// records, if no payload and no digest among them holds a comma or a line
/// break.
pub proof fn lemma_store_and_reload_text(blocks: Vec<Block>)
    requires
        forall|i: int|
            0 <= i < blocks.len() ==> fields_comma_free(#[trigger] blocks[i]@)
                && fields_break_free(blocks[i]@),
    ensures
        parse_text(stored_text(blocks.deep_view())) == blocks.deep_view(),
{
    let views = blocks.deep_view();
    let lines = record_lines(views);
    assert forall|k: int| 0 <= k < lines.len() implies break_free(#[trigger] lines[k])
        && !ends_with_return(lines[k]) by {
        assert(views[k] == blocks[k]@);
        lemma_record_line_is_one_line(views[k], views[k].structurally_valid());
    }
    lemma_split_joined_lines(lines);
    lemma_store_and_reload(blocks);
}

/// Storing a valid chain as text and reading the text again gives the same
/// records, which still form a valid chain, if no payload holds a comma or a
/// line break and the two digests of the first record hold none either.
pub proof fn lemma_valid_chain_survives_reload(blocks: Vec<Block>)
    requires
        chain_valid(blocks.deep_view()),
        forall|i: int|
            0 <= i < blocks.len() ==> comma_free(#[trigger] blocks[i]@.data) && break_free(
                blocks[i]@.data,
            ),
        blocks.len() > 0 ==> {
            &&& comma_free(blocks[0]@.previous_hash)
            &&& comma_free(blocks[0]@.hash)
            &&& break_free(blocks[0]@.previous_hash)
            &&& break_free(blocks[0]@.hash)
        },
    ensures
        parse_text(stored_text(blocks.deep_view())) == blocks.deep_view(),
        chain_valid(parse_text(stored_text(blocks.deep_view()))),
{
    let views = blocks.deep_view();
    assert forall|i: int| 0 <= i < blocks.len() implies fields_comma_free(#[trigger] blocks[i]@)
        && fields_break_free(blocks[i]@) by {
        assert(views[i] == blocks[i]@);
        if i >= 1 {
            assert(views[i - 1] == blocks[i - 1]@);
            assert(link_valid(views, i));
            lemma_digest_plain(views[i]);
            if i >= 2 {
                assert(link_valid(views, i - 1));
                lemma_digest_plain(views[i - 1]);
            }
        }
    }
    lemma_store_and_reload_text(blocks);
}

/// The digest that a record's fields call for holds neither comma nor line
/// break.
pub proof fn lemma_digest_plain(block: BlockView)
    ensures
        comma_free(block.expected_hash()),
        break_free(block.expected_hash()),
{
    lemma_lower_hex_plain(md5_of(block.hashed_bytes()));
}

} // verus!
