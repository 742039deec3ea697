//! Blocks: related lines held together, their text parsed into fragments.
use vstd::prelude::*;
use crate::fragment::MdString;

verus! {

/// Whether a table row is a heading or data.
#[derive(Debug)]
pub enum TableRow {
    Heading,
    Data,
}

/// A block of one or more related lines.
#[derive(Debug)]
pub enum MdBlock {
    Head { level: u8, id: String, data: MdString },
    BlockQuote { data: Vec<Box<MdBlock>> },
    OList { data: Vec<MdString> },
    UList { data: Vec<MdString> },
    Image { alt_text: String, link_text: String },
    Table { data: Vec<(TableRow, Vec<MdString>)> },
    Definition { term: String, defs: Vec<MdString> },
    TaskedLine { done: bool, tast_text: MdString },
    CodeBlock(String),
    Parah(Vec<MdString>),
    HR,
    EmptyLine,
}

/// Collects blocks.
pub struct MdBlockParser {
    blocks: Vec<MdBlock>,
}

impl MdBlockParser {
    /// The blocks collected so far.
    pub closed spec fn view(&self) -> Seq<MdBlock> {
        self.blocks@
    }

    /// A parser with no blocks.
    pub fn new() -> (r: Self)
        ensures
            r@.len() == 0,
    {
        MdBlockParser { blocks: Vec::new() }
    }

    /// The blocks collected so far.
    pub fn blocks(&self) -> (r: &Vec<MdBlock>)
        ensures
            r@ == self@,
    {
        &self.blocks
    }
}

} // verus!
