use vstd::prelude::*;

verus! {

/// The two diagonal placements of a mirror.
#[derive(Debug, PartialEq, Eq, Structural, Clone, Copy)]
pub enum MirrorState {
    /// Forward slash `/` position
    Default,
    /// Backward slash `\` position
    Flipped,
}

/// What a grid cell holds.
#[derive(Debug, PartialEq, Eq, Structural, Clone, Copy)]
pub enum BlockType {
    Mirror(MirrorState),
    Empty,
    Blocking,
}

/// The characters of the cell alphabet.
pub open spec fn is_block_char(c: char) -> bool {
    c == 'o' || c == 'x' || c == '/' || c == '\\'
}

/// The cell that a character of the alphabet stands for.
pub open spec fn block_of(c: char) -> BlockType {
    if c == 'o' {
        BlockType::Empty
    } else if c == 'x' {
        BlockType::Blocking
    } else if c == '/' {
        BlockType::Mirror(MirrorState::Default)
    } else {
        BlockType::Mirror(MirrorState::Flipped)
    }
}

/// The other of the two mirror placements.
pub open spec fn other_state(s: MirrorState) -> MirrorState {
    match s {
        MirrorState::Default => MirrorState::Flipped,
        MirrorState::Flipped => MirrorState::Default,
    }
}

/// A cell after one rotation click: a mirror swaps its placement, any other
/// cell stays as it is.
pub open spec fn rotated(b: BlockType) -> BlockType {
    match b {
        BlockType::Mirror(s) => BlockType::Mirror(other_state(s)),
        other => other,
    }
}

impl MirrorState {
    /// The other placement.
    pub fn toggled(self) -> (r: MirrorState)
        ensures
            r == other_state(self),
    {
        match self {
            MirrorState::Default => MirrorState::Flipped,
            MirrorState::Flipped => MirrorState::Default,
        }
    }
}

impl BlockType {
    /// Decodes one cell character; a character outside the alphabet is
    /// refused by the precondition (see `try_from_char`).
    pub fn from_char(character: &char) -> (r: BlockType)
        requires
            is_block_char(*character),
        ensures
            r == block_of(*character),
    {
        match *character {
            'o' => BlockType::Empty,
            'x' => BlockType::Blocking,
            '/' => BlockType::Mirror(MirrorState::Default),
            _ => BlockType::Mirror(MirrorState::Flipped),
        }
    }

    /// Decodes one cell character, or `None` for a character outside the
    /// alphabet.
    pub fn try_from_char(character: &char) -> (r: Option<BlockType>)
        ensures
            is_block_char(*character) ==> r == Some(block_of(*character)),
            !is_block_char(*character) ==> r is None,
    {
        let c = *character;
        if c == 'o' || c == 'x' || c == '/' || c == '\\' {
            Some(BlockType::from_char(character))
        } else {
            None
        }
    }

    /// True for a mirror cell.
    pub fn is_mirror(&self) -> (r: bool)
        ensures
            r == (*self is Mirror),
    {
        match self {
            BlockType::Mirror(_) => true,
            _ => false,
        }
    }

    /// The cell after one rotation click.
    pub fn rotated(self) -> (r: BlockType)
        ensures
            r == rotated(self),
    {
        match self {
            BlockType::Mirror(s) => BlockType::Mirror(s.toggled()),
            other => other,
        }
    }
}

/// Two rotation clicks bring a cell back to where it was; one click changes a
/// mirror and leaves every other cell alone.
pub proof fn lemma_rotate_twice(b: BlockType)
    ensures
        rotated(rotated(b)) == b,
        b is Mirror ==> rotated(b) != b && rotated(b) is Mirror,
        !(b is Mirror) ==> rotated(b) == b,
{
}

} // verus!
