use vstd::prelude::*;
use vstd::string::StringExecFns;

verus! {

/// A block as plain text: its `full_text` and its `color`.
pub type BlockView = (Seq<char>, Seq<char>);

/// One status segment: the text shown and the display style it asks for.
pub struct Block {
    pub full_text: String,
    pub color: String,
}

impl View for Block {
    type V = BlockView;

    open spec fn view(&self) -> BlockView {
        (self.full_text@, self.color@)
    }
}

/// The blocks of one status line, in display order.
pub struct Blocks(pub Vec<Block>);

impl View for Blocks {
    type V = Seq<BlockView>;

    open spec fn view(&self) -> Seq<BlockView> {
        self.0@.map_values(|b: Block| b@)
    }
}

/// The display line of a block list: every text in order, each followed by
/// one space.
pub open spec fn flatten(bs: Seq<BlockView>) -> Seq<char>
    decreases bs.len(),
{
    if bs.len() == 0 {
        Seq::empty()
    } else {
        flatten(bs.drop_last()) + bs.last().0 + seq![' ']
    }
}

impl Blocks {
    /// The line to display for these blocks.
    pub fn to_string(&self) -> (r: String)
        ensures
            r@ == flatten(self@),
    {
        let mut out = String::new();
        let mut i: usize = 0;
        while i < self.0.len()
            invariant
                i <= self.0@.len(),
                out@ == flatten(self@.subrange(0, i as int)),
            decreases self.0@.len() - i,
        {
            let b = &self.0[i];
            out.append(b.full_text.as_str());
            out.append(" ");
            proof {
                reveal_strlit(" ");
                assert(self@.subrange(0, i + 1).drop_last() =~= self@.subrange(0, i as int));
            }
            i += 1;
        }
        assert(self@.subrange(0, self.0@.len() as int) =~= self@);
        out
    }
}

} // verus!
