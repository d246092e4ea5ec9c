use vstd::prelude::*;
use vstd::string::{StrSliceExecFns, StringExecFns};
use crate::commands::{
    expand_requests, expanded_key, expanded_requests, request_keys, LoadedLayout,
};
use super::errors::{BlockArgumentFailure, LayoutError};
use super::text::{first_occurrence, lemma_first_occurrence, occurrences};

verus! {

/// A block and the layout file that defines it. An empty name stands for
/// every block of the file.
#[derive(Debug)]
pub struct BlockNames {
    pub name: String,
    pub file: String,
}

impl Clone for BlockNames {
    fn clone(&self) -> (r: Self)
        ensures
            r == *self,
    {
        BlockNames { name: self.name.clone(), file: self.file.clone() }
    }
}

/// What a block reference asks for: one block of a file, or all of them.
#[derive(Debug, Clone)]
pub enum BlockSpecifier {
    Specific(BlockNames),
    All(String),
}

/// What a block reference says.
pub enum ParsedSpecifier {
    /// Every block of the file.
    All(Seq<char>),
    /// The block `name` of `file`.
    Specific { name: Seq<char>, file: Seq<char> },
    /// Nothing: the reference is empty.
    EmptyFile,
    /// Nothing: the reference has more than one `@`, or nothing before or
    /// behind its `@`.
    Malformed,
}

/// What the block reference `input` says. A reference is `name@file` for
/// one block, or `file` for all blocks of a file.
pub open spec fn parsed_specifier(input: Seq<char>) -> ParsedSpecifier {
    let count = occurrences(input, '@');
    let at = first_occurrence(input, '@');
    if count == 0 {
        if input.len() == 0 {
            ParsedSpecifier::EmptyFile
        } else {
            ParsedSpecifier::All(input)
        }
    } else if count == 1 && 0 < at && at + 1 < input.len() {
        ParsedSpecifier::Specific { name: input.take(at), file: input.skip(at + 1) }
    } else {
        ParsedSpecifier::Malformed
    }
}

/// What a result of `parse_block_specifier` stands for.
pub open spec fn specifier_of(r: Result<BlockSpecifier, LayoutError>, input: Seq<char>) -> Option<
    ParsedSpecifier,
> {
    match r {
        Ok(BlockSpecifier::All(file)) => Some(ParsedSpecifier::All(file@)),
        Ok(BlockSpecifier::Specific(names)) => Some(
            ParsedSpecifier::Specific { name: names.name@, file: names.file@ },
        ),
        Err(LayoutError::InvalidBlockArgument(BlockArgumentFailure::EmptyLayoutFile)) => Some(
            ParsedSpecifier::EmptyFile,
        ),
        Err(LayoutError::InvalidBlockArgument(BlockArgumentFailure::Malformed(text))) => if text@
            == input {
            Some(ParsedSpecifier::Malformed)
        } else {
            None
        },
        _ => None,
    }
}

/// Reads a block reference: see `parsed_specifier`. A malformed reference
/// is given back in the error.
#[verifier::rlimit(40)]
pub fn parse_block_specifier(input: &str) -> (r: Result<BlockSpecifier, LayoutError>)
    ensures
        specifier_of(r, input@) == Some(parsed_specifier(input@)),
{
    let length = input.unicode_len();
    let mut count: usize = 0;
    let mut first: usize = length;
    let mut i: usize = 0;
    while i < length
        invariant
            i <= length,
            length == input@.len(),
            count == occurrences(input@.take(i as int), '@'),
            count <= i,
            count == 0 ==> first == length,
            count > 0 ==> first < i && input@[first as int] == '@',
            forall|j: int| 0 <= j < i && j < first ==> input@[j] != '@',
        decreases length - i,
    {
        proof {
            assert(input@.take(i + 1).drop_last() =~= input@.take(i as int));
        }
        if input.get_char(i) == '@' {
            if count == 0 {
                first = i;
            }
            count = count + 1;
        }
        i = i + 1;
    }
    proof {
        assert(input@.take(length as int) =~= input@);
        lemma_first_occurrence(input@, '@', first as int);
    }
    if count == 0 {
        if length == 0 {
            Err(LayoutError::InvalidBlockArgument(BlockArgumentFailure::EmptyLayoutFile))
        } else {
            Ok(BlockSpecifier::All(String::from_str(input)))
        }
    } else if count == 1 && 0 < first && first + 1 < length {
        let name = String::from_str(input.substring_char(0, first));
        let file = String::from_str(input.substring_char(first + 1, length));
        proof {
            assert(input@.subrange(0, first as int) =~= input@.take(first as int));
            assert(input@.subrange(first + 1, length as int) =~= input@.skip(first + 1));
        }
        Ok(BlockSpecifier::Specific(BlockNames { name, file }))
    } else {
        Err(
            LayoutError::InvalidBlockArgument(
                BlockArgumentFailure::Malformed(String::from_str(input)),
            ),
        )
    }
}

/// The request that a block reference stands for: the block it names, or,
/// with an empty name, every block of its file.
pub open spec fn request_of(specifier: BlockSpecifier) -> (Seq<char>, Seq<char>) {
    match specifier {
        BlockSpecifier::Specific(names) => (names.file@, names.name@),
        BlockSpecifier::All(file) => (file@, Seq::empty()),
    }
}

/// The file and the name that a block reference speaks of; the name is
/// empty for every block of the file.
pub open spec fn specifier_file(specifier: BlockSpecifier) -> String {
    match specifier {
        BlockSpecifier::Specific(names) => names.file,
        BlockSpecifier::All(file) => file,
    }
}

/// What a block reference stands for against the layouts that were read:
/// the block it names, or every block of its file in the file's order. A
/// file that was not read or that defines no block is refused.
pub open spec fn expanded_specifier(specifier: BlockSpecifier, layouts: Seq<LoadedLayout>) -> Result<
    Seq<(Seq<char>, Seq<char>)>,
    LayoutError,
> {
    expanded_key(specifier_file(specifier), request_of(specifier).1, layouts)
}

/// What the first `count` block references stand for, one after the other;
/// the error of the first that is refused. A block that is referred to
/// twice stands twice.
pub open spec fn expanded_specifiers(
    specifiers: Seq<BlockSpecifier>,
    count: nat,
    layouts: Seq<LoadedLayout>,
) -> Result<Seq<(Seq<char>, Seq<char>)>, LayoutError>
    decreases count,
{
    if count == 0 || count > specifiers.len() {
        Ok(Seq::empty())
    } else {
        match expanded_specifiers(specifiers, (count - 1) as nat, layouts) {
            Err(e) => Err(e),
            Ok(done) => match expanded_specifier(specifiers[count - 1], layouts) {
                Err(e) => Err(e),
                Ok(more) => Ok(done + more),
            },
        }
    }
}

/// Requests that speak of the same files and names as the block references
/// stand for the same blocks.
proof fn lemma_same_expansion(
    specifiers: Seq<BlockSpecifier>,
    requests: Seq<BlockNames>,
    count: nat,
    layouts: Seq<LoadedLayout>,
)
    requires
        requests.len() == specifiers.len(),
        count <= specifiers.len(),
        forall|i: int|
            0 <= i < specifiers.len() ==> (#[trigger] requests[i]).file == specifier_file(
                specifiers[i],
            ) && requests[i].name@ == request_of(specifiers[i]).1,
    ensures
        expanded_requests(requests, count, layouts) == expanded_specifiers(
            specifiers,
            count,
            layouts,
        ),
    decreases count,
{
    if count > 0 {
        lemma_same_expansion(specifiers, requests, (count - 1) as nat, layouts);
        assert(requests[count - 1].file == specifier_file(specifiers[count - 1]));
    }
}

/// The block references of a command line and what they resolve to.
#[derive(Debug)]
pub struct LayoutArgs {
    /// One or more blocks in the form `name@layout_file`, or layout files
    /// of which all blocks are built.
    pub specifiers: Vec<BlockSpecifier>,
    /// The blocks that the references stand for, once resolved.
    pub blocks: Vec<BlockNames>,
    /// Disallow lossy conversions.
    pub strict: bool,
}

impl LayoutArgs {
    /// What resolving the block references gives where no blocks are
    /// there yet: the blocks that the references stand for, in their order;
    /// the error of the first reference that is refused; and the refusal of
    /// references that stand for no block at all.
    pub open spec fn spec_resolve(specifiers: Seq<BlockSpecifier>, layouts: Seq<LoadedLayout>) -> Result<
        Seq<(Seq<char>, Seq<char>)>,
        LayoutError,
    > {
        match expanded_specifiers(specifiers, specifiers.len(), layouts) {
            Err(e) => Err(e),
            Ok(keys) => if keys.len() == 0 {
                Err(LayoutError::NoBlocksProvided)
            } else {
                Ok(keys)
            },
        }
    }

    /// Resolves the block references against the layouts that were read,
    /// unless blocks are there already, and returns the blocks. A
    /// reference to a whole file stands for every block of it. Nothing is
    /// taken out: a block that is referred to twice stands twice.
    pub fn resolve_blocks(&mut self, layouts: &[LoadedLayout]) -> (r: Result<
        &[BlockNames],
        LayoutError,
    >)
        ensures
            r is Ok ==> r->Ok_0@ == final(self).blocks@,
            final(self).specifiers == old(self).specifiers,
            final(self).strict == old(self).strict,
            old(self).blocks@.len() > 0 ==> r is Ok && final(self).blocks == old(self).blocks,
            old(self).blocks@.len() == 0 ==> (match r {
                Ok(_) => Self::spec_resolve(old(self).specifiers@, layouts@) == Ok::<
                    Seq<(Seq<char>, Seq<char>)>,
                    LayoutError,
                >(request_keys(final(self).blocks@)),
                Err(e) => Self::spec_resolve(old(self).specifiers@, layouts@) == Err::<
                    Seq<(Seq<char>, Seq<char>)>,
                    LayoutError,
                >(e) && final(self).blocks == old(self).blocks,
            }),
    {
        if self.blocks.len() == 0 {
            let resolved = match Self::expand_specifiers(self.specifiers.as_slice(), layouts) {
                Ok(resolved) => resolved,
                Err(e) => {
                    return Err(e);
                },
            };
            if resolved.len() == 0 {
                return Err(LayoutError::NoBlocksProvided);
            }
            self.blocks = resolved;
        }
        Ok(self.blocks.as_slice())
    }

    /// The blocks that the block references stand for against the layouts
    /// that were read, in the order of the references: see
    /// `expanded_specifiers`.
    pub fn expand_specifiers(specifiers: &[BlockSpecifier], layouts: &[LoadedLayout]) -> (r: Result<
        Vec<BlockNames>,
        LayoutError,
    >)
        ensures
            match r {
                Ok(blocks) => expanded_specifiers(specifiers@, specifiers@.len(), layouts@) == Ok::<
                    Seq<(Seq<char>, Seq<char>)>,
                    LayoutError,
                >(request_keys(blocks@)),
                Err(e) => expanded_specifiers(specifiers@, specifiers@.len(), layouts@) == Err::<
                    Seq<(Seq<char>, Seq<char>)>,
                    LayoutError,
                >(e),
            },
    {
        let requests = Self::requests(specifiers);
        proof {
            lemma_same_expansion(specifiers@, requests@, specifiers@.len(), layouts@);
        }
        expand_requests(requests.as_slice(), layouts)
    }

    /// The requests that the block references make, in their order, before
    /// any layout is read: for one block its file and name, and for a whole
    /// file the file with an empty name.
    pub fn requests(specifiers: &[BlockSpecifier]) -> (resolved: Vec<BlockNames>)
        ensures
            resolved@.len() == specifiers@.len(),
            forall|i: int|
                0 <= i < specifiers@.len() ==> (#[trigger] resolved@[i]).file == specifier_file(
                    specifiers@[i],
                ) && resolved@[i].name@ == request_of(specifiers@[i]).1,
    {
        let mut resolved: Vec<BlockNames> = Vec::new();
        let mut i: usize = 0;
        while i < specifiers.len()
            invariant
                i <= specifiers.len(),
                resolved@.len() == i,
                forall|j: int|
                    0 <= j < i ==> (#[trigger] resolved@[j]).file == specifier_file(
                        specifiers@[j],
                    ) && resolved@[j].name@ == request_of(specifiers@[j]).1,
            decreases specifiers.len() - i,
        {
            match &specifiers[i] {
                BlockSpecifier::Specific(block) => {
                    resolved.push(block.clone());
                },
                BlockSpecifier::All(file) => {
                    resolved.push(BlockNames { name: String::new(), file: file.clone() });
                },
            }
            i = i + 1;
        }
        resolved
    }
}

} // verus!
