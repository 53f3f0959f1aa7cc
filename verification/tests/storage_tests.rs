use hashchain::storage::block_from_line;
use hashchain::storage::blocks_from_lines;
use hashchain::storage::blocks_from_text;
use hashchain::storage::line_from_block;
use hashchain::storage::lines_from_blocks;
use hashchain::storage::mockup_blocks;
use hashchain::storage::mockup_lines;
use hashchain::storage::mockup_text;
use hashchain::storage::mockup_text_at;
use hashchain::storage::mockup_text_now;
use hashchain::storage::text_from_blocks;
use hashchain::Block;
use hashchain::Blockchain;

fn linked(index: u32, timestamp: u128, data: &str, previous_hash: &str) -> Block {
    let hash = Block::calculate_hash(index, timestamp, data, previous_hash);
    Block::new(
        index,
        timestamp,
        data.to_string(),
        previous_hash.to_string(),
        hash,
    )
}

fn same_fields(a: &Block, b: &Block) -> bool {
    a.index == b.index
        && a.timestamp == b.timestamp
        && a.data == b.data
        && a.previous_hash == b.previous_hash
        && a.hash == b.hash
}

#[test]
fn line_has_six_fields_in_order() {
    let block = Block::new(
        3,
        1700000000000,
        "payload".to_string(),
        "prev".to_string(),
        "own".to_string(),
    );
    assert_eq!(
        line_from_block(&block, true),
        "3,1700000000000,payload,prev,own,true"
    );
    assert_eq!(
        line_from_block(&block, false),
        "3,1700000000000,payload,prev,own,false"
    );
}

#[test]
fn lines_carry_the_recomputed_validity() {
    let good = linked(0, 1700000000000, "Genesis Block", "0");
    let bad = Block::new(1, 5, "x".to_string(), "y".to_string(), "z".to_string());
    let lines = lines_from_blocks(&vec![good, bad]);
    assert_eq!(
        lines,
        vec![
            "0,1700000000000,Genesis Block,0,4bc5358952c0dcf35b396735b51b317a,true".to_string(),
            "1,5,x,y,z,false".to_string(),
        ]
    );
}

#[test]
fn lines_of_no_blocks_are_none() {
    assert!(lines_from_blocks(&Vec::new()).is_empty());
}

#[test]
fn line_with_six_fields_is_read() {
    let block = block_from_line("3,1700000000000,payload,prev,own,true").unwrap();
    assert_eq!(block.index, 3);
    assert_eq!(block.timestamp, 1700000000000);
    assert_eq!(block.data, "payload");
    assert_eq!(block.previous_hash, "prev");
    assert_eq!(block.hash, "own");
}

#[test]
fn validity_flag_is_not_read_back() {
    let a = block_from_line("1,2,d,p,h,true").unwrap();
    let b = block_from_line("1,2,d,p,h,false").unwrap();
    let c = block_from_line("1,2,d,p,h").unwrap();
    let d = block_from_line("1,2,d,p,h,whatever,and,more").unwrap();
    assert!(same_fields(&a, &b));
    assert!(same_fields(&a, &c));
    assert!(same_fields(&a, &d));
}

#[test]
fn line_with_fewer_than_five_fields_is_skipped() {
    assert!(block_from_line("").is_none());
    assert!(block_from_line("1").is_none());
    assert!(block_from_line("1,2,d,p").is_none());
    assert!(block_from_line(",,,").is_none());
    assert!(block_from_line(",,,,").is_some());
}

#[test]
fn non_numeric_position_reads_as_zero() {
    let block = block_from_line("abc,123,data,prev,hash,true").unwrap();
    assert_eq!(block.index, 0);
    assert_eq!(block.timestamp, 123);
    assert_eq!(block.data, "data");
    assert_eq!(block.previous_hash, "prev");
    assert_eq!(block.hash, "hash");
}

#[test]
fn non_numeric_position_does_not_abort_loading() {
    let lines = vec![
        "0,10,first,0,h0,true".to_string(),
        "abc,11,second,h0,h1,true".to_string(),
        "2,12,third,h1,h2,true".to_string(),
    ];
    let blocks = blocks_from_lines(&lines);
    assert_eq!(blocks.len(), 3);
    assert_eq!(blocks[1].index, 0);
    assert_eq!(blocks[1].data, "second");
    assert_eq!(blocks[2].index, 2);
    let mut chain = Blockchain::new();
    for block in blocks {
        chain.add_block(block);
    }
    assert_eq!(chain.chain.len(), 3);
}

#[test]
fn non_numeric_timestamp_reads_as_zero() {
    let block = block_from_line("7,yesterday,data,prev,hash,true").unwrap();
    assert_eq!(block.index, 7);
    assert_eq!(block.timestamp, 0);
}

#[test]
fn numbers_out_of_range_read_as_zero() {
    let block = block_from_line("4294967296,340282366920938463463374607431768211456,d,p,h").unwrap();
    assert_eq!(block.index, 0);
    assert_eq!(block.timestamp, 0);
    let block = block_from_line("4294967295,340282366920938463463374607431768211455,d,p,h").unwrap();
    assert_eq!(block.index, u32::MAX);
    assert_eq!(block.timestamp, u128::MAX);
}

#[test]
fn numbers_with_sign_or_space() {
    let block = block_from_line("+4,+5,d,p,h").unwrap();
    assert_eq!(block.index, 4);
    assert_eq!(block.timestamp, 5);
    let block = block_from_line(" 4,5 ,d,p,h").unwrap();
    assert_eq!(block.index, 0);
    assert_eq!(block.timestamp, 0);
    let block = block_from_line("-4,-0,d,p,h").unwrap();
    assert_eq!(block.index, 0);
    assert_eq!(block.timestamp, 0);
}

#[test]
fn parse_failure_shows_up_as_invalid_record() {
    let good = linked(5, 10, "data", "0");
    let line = format!("five,10,data,0,{},true", good.hash);
    let block = block_from_line(&line).unwrap();
    assert_eq!(block.index, 0);
    assert!(!block.is_valid());
}

#[test]
fn malformed_lines_are_left_out_in_order() {
    let lines = vec![
        "garbage".to_string(),
        "0,1,a,0,h0,true".to_string(),
        String::new(),
        "1,2,b".to_string(),
        "2,3,c,h0,h1,false".to_string(),
    ];
    let blocks = blocks_from_lines(&lines);
    assert_eq!(blocks.len(), 2);
    assert_eq!(blocks[0].data, "a");
    assert_eq!(blocks[1].data, "c");
}

#[test]
fn no_lines_give_no_blocks() {
    assert!(blocks_from_lines(&Vec::new()).is_empty());
}

#[test]
fn valid_chain_survives_store_and_reload() {
    let first = linked(0, 1700000000000, "Genesis Block", "0");
    let second = linked(1, 1700000000001, "second payload", &first.hash);
    let third = linked(2, 1700000000002, "thîrd ✓ payload", &second.hash);
    let mut chain = Blockchain::new();
    chain.add_block(first);
    chain.add_block(second);
    chain.add_block(third);
    assert!(chain.is_valid());

    let lines = lines_from_blocks(&chain.chain);
    assert_eq!(lines.len(), 3);
    assert!(lines.iter().all(|line| line.ends_with(",true")));
    let reloaded = blocks_from_lines(&lines);
    assert_eq!(reloaded.len(), 3);
    let mut again = Blockchain::new();
    for (stored, block) in chain.chain.iter().zip(reloaded) {
        assert!(same_fields(stored, &block));
        again.add_block(block);
    }
    assert!(again.is_valid());
}

#[test]
fn invalid_chain_with_plain_fields_survives_store_and_reload_too() {
    let blocks = vec![
        Block::new(4, 4, "a".to_string(), "b".to_string(), "c".to_string()),
        Block::new(0, 0, String::new(), String::new(), String::new()),
    ];
    let reloaded = blocks_from_lines(&lines_from_blocks(&blocks));
    assert_eq!(reloaded.len(), 2);
    assert!(same_fields(&blocks[0], &reloaded[0]));
    assert!(same_fields(&blocks[1], &reloaded[1]));
}

#[test]
fn comma_in_payload_does_not_survive_reload() {
    let block = linked(1, 2, "a,b", "0");
    let line = line_from_block(&block, true);
    let read = block_from_line(&line).unwrap();
    assert_eq!(read.data, "a");
    assert_eq!(read.previous_hash, "b");
    assert!(!same_fields(&block, &read));
}

#[test]
fn mockup_has_three_linked_records() {
    let now: u128 = 1700000000000;
    let blocks = mockup_blocks(now);
    assert_eq!(blocks.len(), 3);

    assert_eq!(blocks[0].index, 0);
    assert_eq!(blocks[0].timestamp, now);
    assert_eq!(blocks[0].data, "Genesis Block");
    assert_eq!(blocks[0].previous_hash, "0");
    assert_eq!(blocks[0].hash, "4bc5358952c0dcf35b396735b51b317a");

    assert_eq!(blocks[1].index, 1);
    assert_eq!(blocks[1].timestamp, now);
    assert_eq!(blocks[1].data, "First Block");
    assert_eq!(blocks[1].previous_hash, "4bc5358952c0dcf35b396735b51b317a");
    assert_eq!(blocks[1].hash, "0edac73dee601c06b7add43c1f560abb");

    assert_eq!(blocks[2].index, 2);
    assert_eq!(blocks[2].timestamp, now);
    assert_eq!(blocks[2].data, "Second Block");
    assert_eq!(blocks[2].previous_hash, "0edac73dee601c06b7add43c1f560abb");
    assert_eq!(blocks[2].hash, "caa03a20b1be39aae4816e27b216dc6d");
}

#[test]
fn mockup_genesis_is_valid_and_later_records_hash_longer_payloads() {
    let blocks = mockup_blocks(42);
    assert!(blocks[0].is_valid());
    assert_eq!(
        blocks[1].hash,
        Block::calculate_hash(1, 42, "First Block after Genesis", &blocks[0].hash)
    );
    assert_eq!(
        blocks[2].hash,
        Block::calculate_hash(2, 42, "Second Block after Genesis", &blocks[1].hash)
    );
    assert!(!blocks[1].is_valid());
    assert!(!blocks[2].is_valid());
    let mut chain = Blockchain::new();
    for block in blocks {
        chain.add_block(block);
    }
    assert!(!chain.is_valid());
}

#[test]
fn mockup_lines_are_all_flagged_true() {
    let lines = mockup_lines(1700000000000);
    assert_eq!(
        lines,
        vec![
            "0,1700000000000,Genesis Block,0,4bc5358952c0dcf35b396735b51b317a,true".to_string(),
            "1,1700000000000,First Block,4bc5358952c0dcf35b396735b51b317a,0edac73dee601c06b7add43c1f560abb,true".to_string(),
            "2,1700000000000,Second Block,0edac73dee601c06b7add43c1f560abb,caa03a20b1be39aae4816e27b216dc6d,true".to_string(),
        ]
    );
}

#[test]
fn mockup_lines_reload_as_the_mockup_blocks() {
    let now: u128 = 123456789;
    let blocks = mockup_blocks(now);
    let reloaded = blocks_from_lines(&mockup_lines(now));
    assert_eq!(reloaded.len(), 3);
    for (a, b) in blocks.iter().zip(reloaded.iter()) {
        assert!(same_fields(a, b));
    }
}

#[test]
fn text_has_one_flagged_line_per_record() {
    let good = linked(0, 1700000000000, "Genesis Block", "0");
    let bad = Block::new(1, 5, "x".to_string(), "y".to_string(), "z".to_string());
    assert_eq!(
        text_from_blocks(&vec![good, bad]),
        "0,1700000000000,Genesis Block,0,4bc5358952c0dcf35b396735b51b317a,true\n1,5,x,y,z,false\n"
    );
    assert_eq!(text_from_blocks(&Vec::new()), "");
}

#[test]
fn text_is_read_line_by_line() {
    let blocks = blocks_from_text("0,10,first,0,h0,true\nshort,line\n\n2,12,third,h1,h2,false");
    assert_eq!(blocks.len(), 2);
    assert_eq!(blocks[0].index, 0);
    assert_eq!(blocks[0].timestamp, 10);
    assert_eq!(blocks[0].data, "first");
    assert_eq!(blocks[0].previous_hash, "0");
    assert_eq!(blocks[0].hash, "h0");
    assert_eq!(blocks[1].index, 2);
    assert_eq!(blocks[1].data, "third");
    assert_eq!(blocks[1].hash, "h2");
    assert!(blocks_from_text("").is_empty());
}

#[test]
fn text_with_returns_before_breaks_is_read() {
    let blocks = blocks_from_text("0,10,first,0,h0\r\n1,11,second,h0,h1\r\n");
    assert_eq!(blocks.len(), 2);
    assert_eq!(blocks[0].hash, "h0");
    assert_eq!(blocks[1].hash, "h1");
}

#[test]
fn non_numeric_position_in_text_does_not_abort_loading() {
    let blocks = blocks_from_text("abc,11,second,h0,h1,true\n2,12,third,h1,h2,true\n");
    assert_eq!(blocks.len(), 2);
    assert_eq!(blocks[0].index, 0);
    assert_eq!(blocks[0].timestamp, 11);
    assert_eq!(blocks[0].data, "second");
    assert_eq!(blocks[1].index, 2);
}

#[test]
fn valid_chain_survives_store_and_reload_as_text() {
    let first = linked(0, 1700000000000, "Genesis Block", "0");
    let second = linked(1, 1700000000001, "second payload", &first.hash);
    let third = linked(2, 1700000000002, "thîrd ✓ payload\r", &second.hash);
    let mut chain = Blockchain::new();
    chain.add_block(first);
    chain.add_block(second);
    chain.add_block(third);
    assert!(chain.is_valid());

    let reloaded = blocks_from_text(&text_from_blocks(&chain.chain));
    assert_eq!(reloaded.len(), 3);
    let mut again = Blockchain::new();
    for (stored, block) in chain.chain.iter().zip(reloaded) {
        assert!(same_fields(stored, &block));
        again.add_block(block);
    }
    assert!(again.is_valid());
}

#[test]
fn line_break_in_payload_does_not_survive_reload() {
    let block = linked(1, 2, "a\nb", "0");
    let reloaded = blocks_from_text(&text_from_blocks(&vec![block]));
    assert!(reloaded.is_empty());
}

#[test]
fn mockup_text_is_the_three_lines() {
    assert_eq!(
        mockup_text(1700000000000),
        "0,1700000000000,Genesis Block,0,4bc5358952c0dcf35b396735b51b317a,true\n\
         1,1700000000000,First Block,4bc5358952c0dcf35b396735b51b317a,0edac73dee601c06b7add43c1f560abb,true\n\
         2,1700000000000,Second Block,0edac73dee601c06b7add43c1f560abb,caa03a20b1be39aae4816e27b216dc6d,true\n"
    );
}

#[test]
fn mockup_text_now_is_a_mockup_text_of_one_time() {
    let text = mockup_text_now().unwrap();
    let blocks = blocks_from_text(&text);
    assert_eq!(blocks.len(), 3);
    let now = blocks[0].timestamp;
    assert!(now > 1_577_836_800_000);
    assert_eq!(text, mockup_text(now));
}

#[test]
fn mockup_text_at_a_reading_is_the_mockup_text_of_that_time() {
    assert_eq!(mockup_text_at(Some(1700000000000)), Some(mockup_text(1700000000000)));
    assert_eq!(mockup_text_at(Some(0)), Some(mockup_text(0)));
}

#[test]
fn mockup_text_at_no_reading_is_no_text() {
    assert_eq!(mockup_text_at(None), None);
}
