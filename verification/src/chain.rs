//! The chain: records in order, each naming the digest of the one before it.

use vstd::prelude::*;
use crate::block::Block;
use crate::block::BlockView;

verus! {

/// An ordered sequence of records. Records are only ever added at the end,
/// and nothing is checked when one is added: validity is asked for with
/// [`Blockchain::is_valid`].
pub struct Blockchain {
    pub chain: Vec<Block>,
}

/// Whether the record at position `i` of `blocks` is structurally valid and
/// names the digest of the record before it.
pub open spec fn link_valid(blocks: Seq<BlockView>, i: int) -> bool {
    &&& blocks[i].structurally_valid()
    &&& blocks[i].previous_hash == blocks[i - 1].hash
}

/// Whether every record after the first is structurally valid and names the
/// digest of the record before it. The first record is not looked at.
pub open spec fn chain_valid(blocks: Seq<BlockView>) -> bool {
    forall|i: int| 1 <= i < blocks.len() ==> link_valid(blocks, i)
}

/// The descriptions of all records, each followed by a line break.
pub open spec fn chain_description(blocks: Seq<BlockView>) -> Seq<char>
    decreases blocks.len(),
{
    if blocks.len() == 0 {
        Seq::empty()
    } else {
        chain_description(blocks.drop_last()) + blocks.last().description() + seq!['\n']
    }
}

impl View for Blockchain {
    type V = Seq<BlockView>;

    open spec fn view(&self) -> Seq<BlockView> {
        self.chain.deep_view()
    }
}

impl Blockchain {
    /// A chain without records.
    pub fn new() -> (chain: Blockchain)
        ensures
            chain@ == Seq::<BlockView>::empty(),
    {
        Blockchain { chain: Vec::new() }
    }

    /// Adds `block` at the end of the chain, whatever it holds.
    pub fn add_block(&mut self, block: Block)
        ensures
            final(self)@ == old(self)@.push(block@),
    {
        self.chain.push(block);
    }

    /// Checks every record after the first: it must be structurally valid and
    /// name the digest of the record before it.
    pub fn is_valid(&self) -> (ok: bool)
        ensures
            ok == chain_valid(self@),
    {
        let mut i: usize = 1;
        while i < self.chain.len()
            invariant
                1 <= i,
                forall|j: int| 1 <= j < i && j < self.chain.len() ==> link_valid(self@, j),
            decreases self.chain.len() - i,
        {
            let current = &self.chain[i];
            let previous = &self.chain[i - 1];
            if !current.is_valid() {
                assert(!link_valid(self@, i as int));
                return false;
            }
            if current.previous_hash != previous.hash {
                assert(!link_valid(self@, i as int));
                return false;
            }
            i += 1;
        }
        true
    }

    /// The descriptions of all records, one per line.
    pub fn to_string(&self) -> (out: String)
        ensures
            out@ == chain_description(self@),
    {
        let mut out = String::new();
        let mut i: usize = 0;
        while i < self.chain.len()
            invariant
                i <= self.chain.len(),
                out@ == chain_description(self@.take(i as int)),
            decreases self.chain.len() - i,
        {
            let line = self.chain[i].to_string();
            out.append(line.as_str());
            out.push('\n');
            i += 1;
            assert(self@.take(i as int).drop_last() =~= self@.take(i - 1));
        }
        assert(self@.take(i as int) =~= self@);
        out
    }
}

/// A chain of no record or of one record is valid, whatever the record holds.
pub proof fn lemma_short_chain_is_valid(chain: Blockchain)
    requires
        chain@.len() <= 1,
    ensures
        chain_valid(chain@),
{
}

/// A chain of two records in which the second does not name the digest of
/// the first is invalid, even if both records are structurally valid.
pub proof fn lemma_broken_link_is_invalid(chain: Blockchain)
    requires
        chain@.len() == 2,
        chain@[1].previous_hash != chain@[0].hash,
    ensures
        !chain_valid(chain@),
{
    assert(!link_valid(chain@, 1));
}

/// A chain is invalid as soon as one record after the first is structurally
/// invalid or does not name the digest of the record before it.
pub proof fn lemma_one_bad_link_is_invalid(chain: Blockchain, i: int)
    requires
        1 <= i < chain@.len(),
        !chain@[i].structurally_valid() || chain@[i].previous_hash != chain@[i - 1].hash,
    ensures
        !chain_valid(chain@),
{
    assert(!link_valid(chain@, i));
}

/// Adding a record to a valid chain that holds a record already gives a valid
/// chain exactly if the new record is structurally valid and names the digest
/// of the last record.
pub proof fn lemma_valid_after_append(chain: Blockchain, block: Block)
    requires
        chain@.len() > 0,
        chain_valid(chain@),
    ensures
        chain_valid(chain@.push(block@)) == (block@.structurally_valid() && block@.previous_hash
            == chain@.last().hash),
{
    let longer = chain@.push(block@);
    let n = chain@.len() as int;
    if block@.structurally_valid() && block@.previous_hash == chain@.last().hash {
        assert forall|i: int| 1 <= i < longer.len() implies link_valid(longer, i) by {
            if i < n {
                assert(link_valid(chain@, i));
            }
        }
    } else {
        assert(!link_valid(longer, n));
    }
}

} // verus!
