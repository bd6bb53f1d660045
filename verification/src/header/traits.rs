use vstd::prelude::*;

verus! {

/// The kinds of member that a type flag can stand for.
#[derive(Debug, Clone, Copy, PartialEq, Eq, Structural)]
pub enum FileKind {
    RegularFile,
    HardLink,
    SymbolicLink,
    CharacterSpecial,
    BlockSpecial,
    Directory,
    Fifo,
    ContiguousFile,
    /// None of the kinds above.
    Other,
}

/// Headers that know how many 512-byte blocks they take.
pub trait UsedBlocksTrait {
    /// The number of blocks that the header takes as it stands.
    spec fn blocks(&self) -> nat;

    /// What `calc_used_blocks` asks of the header: that the count fits.
    spec fn countable(&self) -> bool;

    /// True when the number of blocks that the header remembers, if it
    /// remembers one, is the one that it takes.
    spec fn cache_valid(&self) -> bool;

    /// The number of blocks that the header took when it was last read or
    /// written.
    spec fn saved(&self) -> nat;

    /// Calculates the number of used blocks.
    fn calc_used_blocks(&self) -> (n: usize)
        requires
            self.countable(),
        ensures
            n == self.blocks(),
    ;

    /// Returns the number of used blocks, and calculates it first where the
    /// header has changed since.
    fn get_used_blocks(&mut self) -> (n: usize)
        requires
            old(self).countable(),
            old(self).cache_valid(),
        ensures
            n == old(self).blocks(),
            final(self).blocks() == old(self).blocks(),
            final(self).saved() == old(self).saved(),
            final(self).countable(),
            final(self).cache_valid(),
    ;

    /// Returns the number of saved blocks.
    fn get_saved_blocks(&self) -> (n: usize)
        ensures
            n == self.saved(),
    ;
}

/// Type flags and headers that tell what kind of member they stand for.
pub trait IsTypeTrait {
    /// The kind of member.
    spec fn kind(&self) -> FileKind;

    /// Tells if the header is a regular file.
    fn is_regular_file(&self) -> (b: bool)
        ensures
            b == (self.kind() == FileKind::RegularFile),
    ;

    /// Tells if the header is a hard link.
    fn is_hard_link(&self) -> (b: bool)
        ensures
            b == (self.kind() == FileKind::HardLink),
    ;

    /// Tells if the header is a symbolic link.
    fn is_symbolic_link(&self) -> (b: bool)
        ensures
            b == (self.kind() == FileKind::SymbolicLink),
    ;

    /// Tells if the header is a character special file.
    fn is_character_special(&self) -> (b: bool)
        ensures
            b == (self.kind() == FileKind::CharacterSpecial),
    ;

    /// Tells if the header is a block special file.
    fn is_block_special(&self) -> (b: bool)
        ensures
            b == (self.kind() == FileKind::BlockSpecial),
    ;

    /// Tells if the header is a directory.
    fn is_directory(&self) -> (b: bool)
        ensures
            b == (self.kind() == FileKind::Directory),
    ;

    /// Tells if the header is a FIFO.
    fn is_fifo(&self) -> (b: bool)
        ensures
            b == (self.kind() == FileKind::Fifo),
    ;

    /// Tells if the header is a contiguous file.
    fn is_contiguous_file(&self) -> (b: bool)
        ensures
            b == (self.kind() == FileKind::ContiguousFile),
    ;
}

} // verus!
