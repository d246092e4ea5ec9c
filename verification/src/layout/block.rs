use vstd::prelude::*;
use indexmap::IndexMap;
use crate::data::DataSource;
use super::entry::{padding_run, Fetched, LeafEntry};
use super::errors::LayoutError;
use super::header::Header;
use super::settings::{CrcLocation, Endianness, Settings};
use super::text::is_word;
use super::used_values::{path_model, ValueSink};

verus! {

/// Immutable configuration for bytestream building.
#[derive(Debug, Clone, Copy)]
pub struct BuildConfig {
    pub endianness: Endianness,
    /// The byte that fills gaps.
    pub padding: u8,
    /// Refuse values that a field cannot hold exactly.
    pub strict: bool,
    /// Refuse one-byte types.
    pub word_addressing: bool,
}

/// Any entry: a leaf, or a branch of named entries in the order in which the
/// layout declares them. That order is the order of the bytes. The
/// children are held as a list of pairs, not as a map: Verus admits no map
/// of a type inside that type. What a map would keep, that the children of
/// a branch have names of their own, is `Entry::spec_has_distinct_names`.
#[derive(Debug)]
pub enum Entry {
    Leaf(LeafEntry),
    Branch(Vec<(String, Entry)>),
}

/// The names of the children of a branch, in their order.
pub open spec fn child_names(children: Seq<(String, Entry)>) -> Seq<Seq<char>> {
    Seq::new(children.len(), |i: int| children[i].0@)
}

/// Tells whether a child before the one at `index` has its name.
fn name_occurs_before(children: &Vec<(String, Entry)>, index: usize) -> (r: bool)
    requires
        index < children.len(),
    ensures
        r == exists|j: int| 0 <= j < index && child_names(children@)[j] == child_names(
            children@,
        )[index as int],
{
    let mut j: usize = 0;
    while j < index
        invariant
            j <= index < children.len(),
            forall|k: int|
                0 <= k < j ==> child_names(children@)[k] != child_names(children@)[index as int],
        decreases index - j,
    {
        if children[j].0 == children[index].0 {
            proof {
                assert(child_names(children@)[j as int] == child_names(children@)[index as int]);
            }
            return true;
        }
        j = j + 1;
    }
    false
}

impl Entry {
    /// True where, in every branch of the tree, no two children have the
    /// same name. A layout that is read from a file has this property,
    /// since a table holds a key once.
    pub open spec fn spec_has_distinct_names(self) -> bool
        decreases self,
    {
        match self {
            Entry::Leaf(_) => true,
            Entry::Branch(children) => {
                &&& child_names(children@).no_duplicates()
                &&& forall|i: int|
                    0 <= i < children@.len() ==> (#[trigger] children@[i]).1.spec_has_distinct_names()
            },
        }
    }

    /// Tells whether, in every branch of the tree, the children have names
    /// of their own.
    pub fn has_distinct_names(&self) -> (r: bool)
        ensures
            r == self.spec_has_distinct_names(),
        decreases self,
    {
        match self {
            Entry::Leaf(_) => true,
            Entry::Branch(children) => {
                let ghost names = child_names(children@);
                let mut i: usize = 0;
                while i < children.len()
                    invariant
                        i <= children.len(),
                        *self == Entry::Branch(*children),
                        names == child_names(children@),
                        forall|a: int, b: int| 0 <= a < b < i ==> names[a] != names[b],
                        forall|k: int|
                            0 <= k < i ==> (#[trigger] children@[k]).1.spec_has_distinct_names(),
                    decreases children.len() - i,
                {
                    if name_occurs_before(children, i) {
                        proof {
                            let j = choose|j: int| 0 <= j < i && names[j] == names[i as int];
                            assert(names[j] == names[i as int] && j != i);
                            assert(!names.no_duplicates());
                        }
                        return false;
                    }
                    proof {
                        assert(self->Branch_0 == *children);
                        assert(decreases_to!(*self => self->Branch_0@[i as int].1));
                    }
                    if !children[i].1.has_distinct_names() {
                        return false;
                    }
                    i = i + 1;
                }
                proof {
                    assert forall|a: int, b: int|
                        0 <= a < names.len() && 0 <= b < names.len() && a != b implies names[a]
                        != names[b] by {
                        if a < b {
                            assert(names[a] != names[b]);
                        } else {
                            assert(names[b] != names[a]);
                        }
                    }
                }
                true
            },
        }
    }
}

/// Memory block: a header and the tree of its fields.
#[derive(Debug)]
pub struct Block {
    pub header: Header,
    pub data: Entry,
}

impl Block {
    /// Tells whether every branch of the block's fields holds each name
    /// once: see `Entry::spec_has_distinct_names`.
    pub fn has_distinct_names(&self) -> (r: bool)
        ensures
            r == self.data.spec_has_distinct_names(),
    {
        self.data.has_distinct_names()
    }
}

/// The insertion-ordered map of the `indexmap` crate, which holds the
/// blocks of a layout by name.
#[verifier::external_type_specification]
#[verifier::external_body]
#[verifier::reject_recursive_types(K)]
#[verifier::reject_recursive_types(V)]
#[verifier::reject_recursive_types(S)]
pub struct ExIndexMap<K, V, S>(IndexMap<K, V, S>);

/// The entries of a map of blocks, each a name with its block, in the
/// order in which the map holds them: the order of insertion, as long as
/// nothing is removed.
pub uninterp spec fn block_entries(blocks: IndexMap<String, Block>) -> Seq<(Seq<char>, Block)>;

/// The first block called `name` among `entries`.
pub open spec fn block_named(entries: Seq<(Seq<char>, Block)>, name: Seq<char>) -> Option<Block>
    decreases entries.len(),
{
    if entries.len() == 0 {
        None
    } else if entries[0].0 == name {
        Some(entries[0].1)
    } else {
        block_named(entries.drop_first(), name)
    }
}

/// Calls `IndexMap::len`, which returns the number of entries.
#[verifier::external_body]
pub(crate) fn block_count(blocks: &IndexMap<String, Block>) -> (n: usize)
    ensures
        n == block_entries(*blocks).len(),
{
    blocks.len()
}

/// Calls `IndexMap::get_index`, which returns the entry at a position of
/// the insertion order, and nothing for a position that is not below the
/// number of entries.
#[verifier::external_body]
pub(crate) fn block_at(blocks: &IndexMap<String, Block>, index: usize) -> (r: Option<(&String, &Block)>)
    ensures
        match r {
            Some((name, block)) => index < block_entries(*blocks).len() && name@ == block_entries(
                *blocks,
            )[index as int].0 && *block == block_entries(*blocks)[index as int].1,
            None => index >= block_entries(*blocks).len(),
        },
{
    blocks.get_index(index)
}

/// Calls `IndexMap::get`, which returns the value stored under a key, and
/// nothing where the map has no such key. A map holds a key once, so that
/// value is the first of that name.
#[verifier::external_body]
pub(crate) fn block_by_name<'a>(blocks: &'a IndexMap<String, Block>, name: &str) -> (r: Option<&'a Block>)
    ensures
        match r {
            Some(block) => block_named(block_entries(*blocks), name@) == Some(*block),
            None => block_named(block_entries(*blocks), name@) is None,
        },
{
    blocks.get(name)
}

/// A layout: the settings shared by its blocks, and the blocks by name in
/// their declared order.
pub struct Config {
    pub settings: Settings,
    pub blocks: IndexMap<String, Block>,
}

/// The place of the first of `entries` whose block holds two fields of one
/// name in a branch; the number of entries where there is none.
pub open spec fn first_duplicate(entries: Seq<(Seq<char>, Block)>) -> int
    decreases entries.len(),
{
    if entries.len() == 0 || !entries[0].1.data.spec_has_distinct_names() {
        0
    } else {
        1 + first_duplicate(entries.drop_first())
    }
}

/// Where every block before `index` has distinct names and the one at
/// `index` has not, or there is none, `index` is the first with a
/// duplicate.
proof fn lemma_first_duplicate_is(entries: Seq<(Seq<char>, Block)>, index: int)
    requires
        0 <= index <= entries.len(),
        forall|i: int| 0 <= i < index ==> (#[trigger] entries[i]).1.data.spec_has_distinct_names(),
        index < entries.len() ==> !entries[index].1.data.spec_has_distinct_names(),
    ensures
        first_duplicate(entries) == index,
    decreases entries.len(),
{
    if index > 0 {
        let rest = entries.drop_first();
        assert(entries[0].1.data.spec_has_distinct_names());
        assert forall|i: int| 0 <= i < index - 1 implies (
        #[trigger] rest[i]).1.data.spec_has_distinct_names() by {
            assert(rest[i] == entries[i + 1]);
        }
        lemma_first_duplicate_is(rest, index - 1);
    }
}

impl Config {
    /// True where every block of the layout holds each field name once in
    /// every branch.
    pub open spec fn spec_has_distinct_names(self) -> bool {
        first_duplicate(block_entries(self.blocks)) == block_entries(self.blocks).len()
    }

    /// Checks that no branch of any block holds two fields of one name, and
    /// refuses the layout with the name of the first block that does.
    pub fn check_names(&self) -> (r: Result<(), LayoutError>)
        ensures
            r is Ok <==> self.spec_has_distinct_names(),
            match r {
                Ok(()) => true,
                Err(LayoutError::DuplicateFieldName(name)) => {
                    let entries = block_entries(self.blocks);
                    first_duplicate(entries) < entries.len() && name@ == entries[first_duplicate(
                        entries,
                    )].0
                },
                Err(_) => false,
            },
    {
        let count = block_count(&self.blocks);
        let ghost entries = block_entries(self.blocks);
        let mut i: usize = 0;
        while i < count
            invariant
                i <= count,
                count == entries.len(),
                entries == block_entries(self.blocks),
                forall|k: int|
                    0 <= k < i ==> (#[trigger] entries[k]).1.data.spec_has_distinct_names(),
            decreases count - i,
        {
            match block_at(&self.blocks, i) {
                Some((name, block)) => {
                    if !block.has_distinct_names() {
                        proof {
                            lemma_first_duplicate_is(entries, i as int);
                        }
                        return Err(LayoutError::DuplicateFieldName(name.clone()));
                    }
                },
                None => {},
            }
            i = i + 1;
        }
        proof {
            lemma_first_duplicate_is(entries, count as int);
        }
        Ok(())
    }
}

/// What a build has produced so far: the bytes, the number of them that are
/// alignment padding, and the content of the value sink.
pub struct WalkState<M> {
    pub bytes: Seq<u8>,
    pub padding: nat,
    pub sink: M,
}

/// The number of bytes from `len` to the next multiple of `alignment`.
pub open spec fn alignment_gap(len: nat, alignment: nat) -> nat {
    if alignment == 0 || len % alignment == 0 {
        0
    } else {
        (alignment - len % alignment) as nat
    }
}

/// The gap is shorter than the alignment and leads to a multiple of it.
pub proof fn lemma_alignment_gap(len: nat, alignment: nat)
    requires
        alignment > 0,
    ensures
        alignment_gap(len, alignment) < alignment,
        (len + alignment_gap(len, alignment)) % alignment == 0,
{
    let r = len % alignment;
    if r != 0 {
        let q = len / alignment;
        vstd::arithmetic::div_mod::lemma_fundamental_div_mod(len as int, alignment as int);
        assert(len + (alignment - r) == alignment * (q + 1)) by (nonlinear_arith)
            requires
                len == alignment * q + r,
        ;
        vstd::arithmetic::div_mod::lemma_mod_multiples_basic((q + 1) as int, alignment as int);
        assert(alignment * (q + 1) == (q + 1) * alignment) by (nonlinear_arith);
    }
}

/// What a data source answered for the leaves of an entry, in the shape of
/// the entry.
#[derive(Debug)]
pub enum Answers {
    Leaf(Fetched),
    Branch(Vec<Answers>),
}

/// The answer for a leaf; nothing where the answers have another shape.
pub open spec fn leaf_answer(answers: Answers) -> Fetched {
    match answers {
        Answers::Leaf(fetched) => fetched,
        Answers::Branch(_) => Fetched::Nothing,
    }
}

/// The answers for the child at `index` of a branch; no answer where the
/// answers have another shape or do not reach so far.
pub open spec fn child_answers(answers: Answers, index: int) -> Answers {
    match answers {
        Answers::Branch(children) => if 0 <= index < children@.len() {
            children@[index]
        } else {
            Answers::Leaf(Fetched::Nothing)
        },
        Answers::Leaf(_) => Answers::Leaf(Fetched::Nothing),
    }
}

/// True where `answers` answer `entry`: they have its shape, and every leaf
/// has an answer to what it asks of a data source.
pub open spec fn answers_fit(answers: Answers, entry: Entry, config: BuildConfig) -> bool
    decreases entry,
{
    match entry {
        Entry::Leaf(leaf) => answers is Leaf && leaf.answered_by(answers->Leaf_0, config),
        Entry::Branch(children) => {
            &&& answers is Branch
            &&& answers->Branch_0@.len() == children@.len()
            &&& forall|i: int|
                0 <= i < children@.len() ==> answers_fit(
                    #[trigger] answers->Branch_0@[i],
                    children@[i].1,
                    config,
                )
        },
    }
}

/// The state after `entry` has been built onto `state`, at `path`, given
/// what the data source answered.
///
/// A leaf is preceded by padding up to a multiple of its alignment, which
/// is counted, and followed by nothing. A branch builds its children in
/// their declared order, each at the path extended by its name.
pub open spec fn walk<S: ValueSink>(
    entry: Entry,
    answers: Answers,
    config: BuildConfig,
    path: Seq<Seq<char>>,
    state: WalkState<S::Model>,
) -> Result<WalkState<S::Model>, LayoutError>
    decreases entry, 1nat, 0nat,
{
    match entry {
        Entry::Leaf(leaf) => {
            let gap = alignment_gap(state.bytes.len(), leaf.spec_alignment());
            match leaf.spec_emit::<S>(leaf_answer(answers), config, state.sink, path) {
                Err(e) => Err(e),
                Ok((bytes, sink)) => Ok(
                    WalkState {
                        bytes: state.bytes + padding_run(gap, config.padding) + bytes,
                        padding: state.padding + gap,
                        sink,
                    },
                ),
            }
        },
        Entry::Branch(children) => walk_children::<S>(entry, 0, answers, config, path, state),
    }
}

/// The state after the children of the branch `entry` from the one at
/// `from` on have been built onto `state`. An error in a child is wrapped
/// with the child's name.
pub open spec fn walk_children<S: ValueSink>(
    entry: Entry,
    from: nat,
    answers: Answers,
    config: BuildConfig,
    path: Seq<Seq<char>>,
    state: WalkState<S::Model>,
) -> Result<WalkState<S::Model>, LayoutError>
    decreases entry, 0nat, (if entry is Branch {
        entry->Branch_0@.len() - from
    } else {
        0
    }),
    when entry is Branch
{
    let children = entry->Branch_0@;
    if from >= children.len() {
        Ok(state)
    } else {
        match walk::<S>(
            children[from as int].1,
            child_answers(answers, from as int),
            config,
            path.push(children[from as int].0@),
            state,
        ) {
            Err(e) => Err(LayoutError::InField { field: children[from as int].0, source: Box::new(e) }),
            Ok(after) => walk_children::<S>(entry, from + 1, answers, config, path, after),
        }
    }
}

/// The sink after `entry` has been built onto `state`, whether or not the
/// build succeeds: every leaf up to the first that fails has left it as
/// `LeafEntry::spec_sink` says, and nothing is recorded behind a failure.
pub open spec fn walk_sink<S: ValueSink>(
    entry: Entry,
    answers: Answers,
    config: BuildConfig,
    path: Seq<Seq<char>>,
    state: WalkState<S::Model>,
) -> S::Model
    decreases entry, 1nat, 0nat,
{
    match entry {
        Entry::Leaf(leaf) => leaf.spec_sink::<S>(leaf_answer(answers), config, state.sink, path),
        Entry::Branch(_) => children_sink::<S>(entry, 0, answers, config, path, state),
    }
}

/// The sink after the children of the branch `entry` from the one at
/// `from` on have been built onto `state`, whether or not they succeed.
pub open spec fn children_sink<S: ValueSink>(
    entry: Entry,
    from: nat,
    answers: Answers,
    config: BuildConfig,
    path: Seq<Seq<char>>,
    state: WalkState<S::Model>,
) -> S::Model
    decreases entry, 0nat, (if entry is Branch {
        entry->Branch_0@.len() - from
    } else {
        0
    }),
    when entry is Branch
{
    let children = entry->Branch_0@;
    if from >= children.len() {
        state.sink
    } else {
        match walk::<S>(
            children[from as int].1,
            child_answers(answers, from as int),
            config,
            path.push(children[from as int].0@),
            state,
        ) {
            Err(_) => walk_sink::<S>(
                children[from as int].1,
                child_answers(answers, from as int),
                config,
                path.push(children[from as int].0@),
                state,
            ),
            Ok(after) => children_sink::<S>(entry, from + 1, answers, config, path, after),
        }
    }
}

/// A leaf starts at a multiple of its alignment: the bytes before it are
/// followed by fewer padding bytes than the alignment is wide, each of
/// them the padding byte, so that the leaf's own bytes start at a multiple
/// of the width of its type; and exactly those padding bytes are counted.
pub proof fn lemma_leaf_is_aligned<S: ValueSink>(
    leaf: LeafEntry,
    answers: Answers,
    config: BuildConfig,
    path: Seq<Seq<char>>,
    state: WalkState<S::Model>,
)
    requires
        walk::<S>(Entry::Leaf(leaf), answers, config, path, state) is Ok,
    ensures
        ({
            let after = walk::<S>(Entry::Leaf(leaf), answers, config, path, state)->Ok_0;
            let emitted = leaf.spec_emit::<S>(leaf_answer(answers), config, state.sink, path)->Ok_0.0;
            let gap = alignment_gap(state.bytes.len(), leaf.spec_alignment());
            &&& gap < leaf.spec_alignment()
            &&& (state.bytes.len() + gap) % leaf.spec_alignment() == 0
            &&& after.bytes == state.bytes + padding_run(gap, config.padding) + emitted
            &&& forall|i: int|
                state.bytes.len() <= i < state.bytes.len() + gap ==> after.bytes[i]
                    == config.padding
            &&& after.padding == state.padding + gap
        }),
{
    lemma_alignment_gap(state.bytes.len(), leaf.spec_alignment());
}

/// Where a leaf stands in the bytes of a build.
pub struct Placement {
    /// The offset of the leaf's first byte.
    pub start: nat,
    /// The number of padding bytes that stand before it.
    pub gap: nat,
    /// The alignment of the leaf: the width of its type.
    pub alignment: nat,
    /// The number of bytes of the leaf.
    pub length: nat,
}

/// The places of the leaves of `entry` that are built onto `state`, in the
/// order in which they are built.
pub open spec fn placements<S: ValueSink>(
    entry: Entry,
    answers: Answers,
    config: BuildConfig,
    path: Seq<Seq<char>>,
    state: WalkState<S::Model>,
) -> Seq<Placement>
    decreases entry, 1nat, 0nat,
{
    match entry {
        Entry::Leaf(leaf) => match leaf.spec_emit::<S>(
            leaf_answer(answers),
            config,
            state.sink,
            path,
        ) {
            Err(_) => Seq::empty(),
            Ok((bytes, _)) => {
                let gap = alignment_gap(state.bytes.len(), leaf.spec_alignment());
                seq![
                    Placement {
                        start: state.bytes.len() + gap,
                        gap,
                        alignment: leaf.spec_alignment(),
                        length: bytes.len(),
                    },
                ]
            },
        },
        Entry::Branch(_) => child_placements::<S>(entry, 0, answers, config, path, state),
    }
}

/// The places of the leaves below the children of the branch `entry` from
/// the one at `from` on.
pub open spec fn child_placements<S: ValueSink>(
    entry: Entry,
    from: nat,
    answers: Answers,
    config: BuildConfig,
    path: Seq<Seq<char>>,
    state: WalkState<S::Model>,
) -> Seq<Placement>
    decreases entry, 0nat, (if entry is Branch {
        entry->Branch_0@.len() - from
    } else {
        0
    }),
    when entry is Branch
{
    let children = entry->Branch_0@;
    if from >= children.len() {
        Seq::empty()
    } else {
        let first = placements::<S>(
            children[from as int].1,
            child_answers(answers, from as int),
            config,
            path.push(children[from as int].0@),
            state,
        );
        match walk::<S>(
            children[from as int].1,
            child_answers(answers, from as int),
            config,
            path.push(children[from as int].0@),
            state,
        ) {
            Err(_) => first,
            Ok(after) => first + child_placements::<S>(
                entry,
                from + 1,
                answers,
                config,
                path,
                after,
            ),
        }
    }
}

/// The offset behind the leaf before the one at `index`: where the padding
/// of the leaf at `index` begins. Before the first leaf it is `from`.
pub open spec fn begins(places: Seq<Placement>, index: int, from: nat) -> nat {
    if index <= 0 {
        from
    } else {
        places[index - 1].start + places[index - 1].length
    }
}

/// The sum of the padding before the leaves.
pub open spec fn total_gaps(places: Seq<Placement>) -> nat
    decreases places.len(),
{
    if places.len() == 0 {
        0
    } else {
        total_gaps(places.drop_last()) + places.last().gap
    }
}

/// True where the leaf at `index` stands as it should in `bytes`: its
/// padding begins where the leaf before it ends, is the least that leads
/// to a multiple of the leaf's alignment, and consists of the byte `fill`;
/// the leaf's first byte stands at that multiple; and its bytes lie within
/// `bytes`.
pub open spec fn placed(places: Seq<Placement>, index: int, from: nat, bytes: Seq<u8>, fill: u8) -> bool {
    let place = places[index];
    let begin = begins(places, index, from);
    &&& place.alignment > 0
    &&& place.gap == alignment_gap(begin, place.alignment)
    &&& place.gap < place.alignment
    &&& place.start == begin + place.gap
    &&& place.start % place.alignment == 0
    &&& place.start + place.length <= bytes.len()
    &&& forall|j: int| begin <= j < place.start ==> bytes[j] == fill
}

/// True where `bytes` hold nothing behind the offset `from` but the leaves
/// at their places, each behind its padding: every leaf stands as it
/// should, the last ends where `bytes` end, and `padding` counts the bytes
/// of padding before the leaves beyond the `from_padding` counted before.
pub open spec fn well_placed(
    places: Seq<Placement>,
    from: nat,
    from_padding: nat,
    bytes: Seq<u8>,
    padding: nat,
    fill: u8,
) -> bool {
    &&& begins(places, places.len() as int, from) == bytes.len()
    &&& padding == from_padding + total_gaps(places)
    &&& forall|i: int| 0 <= i < places.len() ==> #[trigger] placed(places, i, from, bytes, fill)
}

proof fn lemma_total_gaps_add(a: Seq<Placement>, b: Seq<Placement>)
    ensures
        total_gaps(a + b) == total_gaps(a) + total_gaps(b),
    decreases b.len(),
{
    if b.len() == 0 {
        assert(a + b =~= a);
    } else {
        lemma_total_gaps_add(a, b.drop_last());
        assert((a + b).drop_last() =~= a + b.drop_last());
        assert((a + b).last() == b.last());
    }
}

/// Leaves that are well placed up to some offset, followed by leaves that
/// are well placed from there, are well placed together.
proof fn lemma_placements_compose(
    a: Seq<Placement>,
    b: Seq<Placement>,
    from: nat,
    from_padding: nat,
    mid: Seq<u8>,
    mid_padding: nat,
    after: Seq<u8>,
    after_padding: nat,
    fill: u8,
)
    requires
        well_placed(a, from, from_padding, mid, mid_padding, fill),
        well_placed(b, mid.len(), mid_padding, after, after_padding, fill),
        mid.len() <= after.len(),
        after.subrange(0, mid.len() as int) == mid,
    ensures
        well_placed(a + b, from, from_padding, after, after_padding, fill),
{
    let all = a + b;
    lemma_total_gaps_add(a, b);
    assert forall|i: int| 0 <= i < all.len() implies #[trigger] placed(
        all,
        i,
        from,
        after,
        fill,
    ) by {
        if i < a.len() {
            assert(placed(a, i, from, mid, fill));
            assert(all[i] == a[i]);
            if i > 0 {
                assert(all[i - 1] == a[i - 1]);
            }
            assert(begins(all, i, from) == begins(a, i, from));
            assert forall|j: int| begins(all, i, from) <= j < all[i].start implies after[j]
                == fill by {
                assert(after.subrange(0, mid.len() as int)[j] == after[j]);
            }
        } else {
            let k = i - a.len();
            assert(placed(b, k, mid.len(), after, fill));
            assert(all[i] == b[k]);
            if k > 0 {
                assert(all[i - 1] == b[k - 1]);
            } else if a.len() > 0 {
                assert(all[i - 1] == a[a.len() - 1]);
            }
            assert(begins(all, i, from) == begins(b, k, mid.len()));
        }
    }
    if b.len() > 0 {
        assert(all[all.len() - 1] == b[b.len() - 1]);
    } else {
        assert(all =~= a);
    }
}

/// Every leaf of a tree starts at a multiple of its alignment.
///
/// Where a tree is built, the bytes that were there stay, and behind them
/// stand the leaves of the tree in their order, each behind the least
/// number of padding bytes that leads to a multiple of the width of its
/// type, with nothing else between them; the padding bytes are the
/// configured padding byte; and the padding count grows by the number of
/// those padding bytes.
pub proof fn lemma_tree_is_aligned<S: ValueSink>(
    entry: Entry,
    answers: Answers,
    config: BuildConfig,
    path: Seq<Seq<char>>,
    state: WalkState<S::Model>,
)
    requires
        walk::<S>(entry, answers, config, path, state) is Ok,
    ensures
        ({
            let after = walk::<S>(entry, answers, config, path, state)->Ok_0;
            &&& state.bytes.len() <= after.bytes.len()
            &&& after.bytes.subrange(0, state.bytes.len() as int) == state.bytes
            &&& well_placed(
                placements::<S>(entry, answers, config, path, state),
                state.bytes.len(),
                state.padding,
                after.bytes,
                after.padding,
                config.padding,
            )
        }),
    decreases entry, 1nat, 0nat,
{
    match entry {
        Entry::Leaf(leaf) => {
            let after = walk::<S>(entry, answers, config, path, state)->Ok_0;
            let places = placements::<S>(entry, answers, config, path, state);
            let gap = alignment_gap(state.bytes.len(), leaf.spec_alignment());
            lemma_alignment_gap(state.bytes.len(), leaf.spec_alignment());
            assert(after.bytes.subrange(0, state.bytes.len() as int) =~= state.bytes);
            assert(places.len() == 1 && places.last().gap == gap);
            assert(places.drop_last().len() == 0);
            assert(total_gaps(places.drop_last()) == 0);
            assert(total_gaps(places) == gap);
            assert(placed(places, 0, state.bytes.len(), after.bytes, config.padding));
        },
        Entry::Branch(_) => {
            lemma_children_are_aligned::<S>(entry, 0, answers, config, path, state);
        },
    }
}

/// The children of a branch from the one at `from` on are built as
/// `lemma_tree_is_aligned` says of a tree.
pub proof fn lemma_children_are_aligned<S: ValueSink>(
    entry: Entry,
    from: nat,
    answers: Answers,
    config: BuildConfig,
    path: Seq<Seq<char>>,
    state: WalkState<S::Model>,
)
    requires
        entry is Branch,
        walk_children::<S>(entry, from, answers, config, path, state) is Ok,
    ensures
        ({
            let after = walk_children::<S>(entry, from, answers, config, path, state)->Ok_0;
            &&& state.bytes.len() <= after.bytes.len()
            &&& after.bytes.subrange(0, state.bytes.len() as int) == state.bytes
            &&& well_placed(
                child_placements::<S>(entry, from, answers, config, path, state),
                state.bytes.len(),
                state.padding,
                after.bytes,
                after.padding,
                config.padding,
            )
        }),
    decreases entry, 0nat, entry->Branch_0@.len() - from,
{
    let children = entry->Branch_0@;
    if from >= children.len() {
        assert(state.bytes.subrange(0, state.bytes.len() as int) =~= state.bytes);
    } else {
        let child = children[from as int].1;
        let child_path = path.push(children[from as int].0@);
        let child_answer = child_answers(answers, from as int);
        let mid = walk::<S>(child, child_answer, config, child_path, state)->Ok_0;
        let after = walk_children::<S>(entry, from, answers, config, path, state)->Ok_0;
        lemma_tree_is_aligned::<S>(child, child_answer, config, child_path, state);
        lemma_children_are_aligned::<S>(entry, from + 1, answers, config, path, mid);
        assert(after.bytes.subrange(0, state.bytes.len() as int) =~= state.bytes) by {
            assert forall|j: int| 0 <= j < state.bytes.len() implies after.bytes[j]
                == state.bytes[j] by {
                assert(after.bytes.subrange(0, mid.bytes.len() as int)[j] == after.bytes[j]);
                assert(mid.bytes.subrange(0, state.bytes.len() as int)[j] == mid.bytes[j]);
            }
        }
        lemma_placements_compose(
            placements::<S>(child, child_answer, config, child_path, state),
            child_placements::<S>(entry, from + 1, answers, config, path, mid),
            state.bytes.len(),
            state.padding,
            mid.bytes,
            mid.padding,
            after.bytes,
            after.padding,
            config.padding,
        );
    }
}

/// Mutable state tracked during recursive bytestream building.
pub struct BuildState {
    pub buffer: Vec<u8>,
    /// How many bytes of `buffer` are alignment padding.
    pub padding_count: usize,
}

impl BuildState {
    pub open spec fn with_sink<M>(self, sink: M) -> WalkState<M> {
        WalkState { bytes: self.buffer@, padding: self.padding_count as nat, sink }
    }
}

/// Pads `buffer` to a multiple of `alignment` and returns the number of
/// bytes added.
pub fn align_to(buffer: &mut Vec<u8>, alignment: usize, padding: u8) -> (added: usize)
    requires
        alignment > 0,
    ensures
        added == alignment_gap(old(buffer)@.len(), alignment as nat),
        final(buffer)@ == old(buffer)@ + padding_run(added as nat, padding),
        final(buffer)@.len() % (alignment as nat) == 0,
{
    let rest = buffer.len() % alignment;
    let gap = if rest == 0 {
        0
    } else {
        alignment - rest
    };
    proof {
        lemma_alignment_gap(buffer@.len(), alignment as nat);
        assert(buffer@ =~= old(buffer)@ + padding_run(0, padding));
    }
    let mut added: usize = 0;
    while added < gap
        invariant
            added <= gap,
            buffer@ == old(buffer)@ + padding_run(added as nat, padding),
        decreases gap - added,
    {
        buffer.push(padding);
        added = added + 1;
        proof {
            assert(buffer@ =~= old(buffer)@ + padding_run(added as nat, padding));
        }
    }
    added
}

impl Block {
    /// The configuration under which the block's fields are built.
    pub open spec fn spec_config(self, settings: Settings, strict: bool) -> BuildConfig {
        BuildConfig {
            endianness: settings.endianness,
            padding: self.header.padding,
            strict,
            word_addressing: settings.word_addressing,
        }
    }

    /// True where the CRC location in force places the CRC behind the
    /// data: the keyword `end_data`, or `end`.
    pub open spec fn spec_crc_follows_data(self, settings: Settings) -> bool {
        match self.header.spec_effective_crc(settings).location {
            Some(CrcLocation::Keyword(word)) => word@ == "end_data"@ || word@ == "end"@,
            _ => false,
        }
    }

    /// The bytes of the block, the number of them that are alignment
    /// padding, and the sink after the build, given what the data source
    /// answered.
    ///
    /// The fields are built in order from an empty buffer. Where the CRC
    /// location in force is the keyword `end_data` or `end`, the bytes are
    /// then padded to a multiple of four, where the CRC will stand, and
    /// that padding is counted too. With any other location nothing is
    /// added behind the last field.
    #[verifier::opaque]
    pub open spec fn spec_build<S: ValueSink>(
        self,
        answers: Answers,
        settings: Settings,
        strict: bool,
        sink: S::Model,
    ) -> Result<WalkState<S::Model>, LayoutError> {
        match walk::<S>(
            self.data,
            answers,
            self.spec_config(settings, strict),
            Seq::empty(),
            WalkState { bytes: Seq::empty(), padding: 0, sink },
        ) {
            Err(e) => Err(e),
            Ok(state) => {
                let tail = if self.spec_crc_follows_data(settings) {
                    alignment_gap(state.bytes.len(), 4)
                } else {
                    0
                };
                Ok(
                    WalkState {
                        bytes: state.bytes + padding_run(tail, self.header.padding),
                        padding: state.padding + tail,
                        sink: state.sink,
                    },
                )
            },
        }
    }

    /// The sink after the block has been built, whether or not the build
    /// succeeds: see `walk_sink`.
    pub open spec fn spec_build_sink<S: ValueSink>(
        self,
        answers: Answers,
        settings: Settings,
        strict: bool,
        sink: S::Model,
    ) -> S::Model {
        walk_sink::<S>(
            self.data,
            answers,
            self.spec_config(settings, strict),
            Seq::empty(),
            WalkState { bytes: Seq::empty(), padding: 0, sink },
        )
    }

    /// The places of the leaves of the block in the bytes of a build.
    pub open spec fn spec_placements<S: ValueSink>(
        self,
        answers: Answers,
        settings: Settings,
        strict: bool,
        sink: S::Model,
    ) -> Seq<Placement> {
        placements::<S>(
            self.data,
            answers,
            self.spec_config(settings, strict),
            Seq::empty(),
            WalkState { bytes: Seq::empty(), padding: 0, sink },
        )
    }

    /// Every leaf of a block starts at a multiple of its alignment.
    ///
    /// In the bytes of a block that is built, the leaves stand in their
    /// order from the first byte on, each at a multiple of the width of its
    /// type behind the least number of padding bytes that leads there, and
    /// nothing else stands between them. Behind the last leaf stand only
    /// the padding bytes that lead to a CRC behind the data. Every
    /// padding byte is the padding byte of the block's header, and the
    /// padding count is the number of all padding bytes.
    pub proof fn lemma_block_is_aligned<S: ValueSink>(
        self,
        answers: Answers,
        settings: Settings,
        strict: bool,
        sink: S::Model,
    )
        requires
            self.spec_build::<S>(answers, settings, strict, sink) is Ok,
        ensures
            ({
                let built = self.spec_build::<S>(answers, settings, strict, sink)->Ok_0;
                let places = self.spec_placements::<S>(answers, settings, strict, sink);
                let end = begins(places, places.len() as int, 0);
                &&& end <= built.bytes.len()
                &&& forall|i: int|
                    0 <= i < places.len() ==> #[trigger] placed(
                        places,
                        i,
                        0,
                        built.bytes,
                        self.header.padding,
                    )
                &&& forall|j: int| end <= j < built.bytes.len() ==> built.bytes[j] == self.header.padding
                &&& built.padding == total_gaps(places) + (built.bytes.len() - end)
            }),
    {
        reveal(Block::spec_build);
        let config = self.spec_config(settings, strict);
        let start = WalkState::<S::Model> { bytes: Seq::empty(), padding: 0, sink };
        let walked = walk::<S>(self.data, answers, config, Seq::empty(), start)->Ok_0;
        let built = self.spec_build::<S>(answers, settings, strict, sink)->Ok_0;
        let places = self.spec_placements::<S>(answers, settings, strict, sink);
        lemma_tree_is_aligned::<S>(self.data, answers, config, Seq::empty(), start);
        assert forall|i: int| 0 <= i < places.len() implies #[trigger] placed(
            places,
            i,
            0,
            built.bytes,
            self.header.padding,
        ) by {
            assert(placed(places, i, 0, walked.bytes, config.padding));
        }
    }

    /// True where `r` and the sink that a build leaves are what `expected`
    /// says: the same bytes, the same sink, and the number of padding bytes
    /// held to the range of `u32`; or the same error.
    pub open spec fn built_as<M>(
        r: Result<(Vec<u8>, u32), LayoutError>,
        sink: M,
        expected: Result<WalkState<M>, LayoutError>,
    ) -> bool {
        match r {
            Ok((bytes, padding)) => {
                &&& expected is Ok
                &&& expected->Ok_0.bytes == bytes@
                &&& expected->Ok_0.sink == sink
                &&& padding == (if expected->Ok_0.padding > u32::MAX {
                    u32::MAX as nat
                } else {
                    expected->Ok_0.padding
                })
            },
            Err(e) => expected == Err::<WalkState<M>, LayoutError>(e),
        }
    }

    /// Asks the data source for everything that the block's fields name.
    /// Without a data source nothing is asked.
    pub fn fetch<D: DataSource>(&self, data_source: Option<&D>, settings: &Settings, strict: bool) -> (answers:
        Answers)
        ensures
            data_source is None ==> answers == Answers::Leaf(Fetched::Nothing),
            data_source is Some ==> answers_fit(
                answers,
                self.data,
                self.spec_config(*settings, strict),
            ),
    {
        let config = BuildConfig {
            endianness: settings.endianness,
            padding: self.header.padding,
            strict,
            word_addressing: settings.word_addressing,
        };
        match data_source {
            None => Answers::Leaf(Fetched::Nothing),
            Some(ds) => Self::fetch_entry(&self.data, ds, &config),
        }
    }

    /// Asks the data source for everything that the fields of `table` name.
    #[verifier::rlimit(40)]
    pub fn fetch_entry<D: DataSource>(table: &Entry, data_source: &D, config: &BuildConfig) -> (answers:
        Answers)
        ensures
            answers_fit(answers, *table, *config),
        decreases table,
    {
        match table {
            Entry::Leaf(leaf) => Answers::Leaf(leaf.fetch(Some(data_source), config)),
            Entry::Branch(branch) => {
                let mut children: Vec<Answers> = Vec::new();
                let mut i: usize = 0;
                while i < branch.len()
                    invariant
                        i <= branch.len(),
                        children@.len() == i,
                        *table == Entry::Branch(*branch),
                        forall|j: int|
                            0 <= j < i ==> answers_fit(
                                #[trigger] children@[j],
                                branch@[j].1,
                                *config,
                            ),
                    decreases branch.len() - i,
                {
                    let child = &branch[i];
                    proof {
                        assert(table->Branch_0 == *branch);
                        assert(decreases_to!(*table => table->Branch_0@[i as int].1));
                    }
                    let answers = Self::fetch_entry(&child.1, data_source, config);
                    children.push(answers);
                    i = i + 1;
                }
                Answers::Branch(children)
            },
        }
    }

    /// Builds the bytes of the block's fields from what the data source
    /// answered: see `spec_build`. Returns them with the number of
    /// alignment padding bytes among them, held to the range of `u32`.
    #[verifier::rlimit(40)]
    pub fn build_fetched<S: ValueSink>(
        &self,
        answers: &Answers,
        settings: &Settings,
        strict: bool,
        value_sink: &mut S,
    ) -> (r: Result<(Vec<u8>, u32), LayoutError>)
        ensures
            Self::built_as(
                r,
                final(value_sink).model(),
                self.spec_build::<S>(*answers, *settings, strict, old(value_sink).model()),
            ),
            final(value_sink).model() == self.spec_build_sink::<S>(
                *answers,
                *settings,
                strict,
                old(value_sink).model(),
            ),
    {
        reveal(Block::spec_build);
        let mut state = BuildState { buffer: Vec::new(), padding_count: 0 };
        let config = BuildConfig {
            endianness: settings.endianness,
            padding: self.header.padding,
            strict,
            word_addressing: settings.word_addressing,
        };
        let mut path: Vec<String> = Vec::new();
        proof {
            assert(path_model(path@) =~= Seq::empty());
        }
        match Self::build_bytestream_inner(
            &self.data,
            answers,
            &mut state,
            &config,
            value_sink,
            &mut path,
        ) {
            Ok(()) => {},
            Err(e) => {
                return Err(e);
            },
        }
        let resolved = self.header.effective_crc(settings);
        let follows = match &resolved.location {
            Some(CrcLocation::Keyword(word)) => is_word(word, "end_data") || is_word(word, "end"),
            _ => false,
        };
        if follows {
            let added = align_to(&mut state.buffer, 4, config.padding);
            let length = state.buffer.len();
            state.padding_count = state.padding_count + added;
        } else {
            proof {
                assert(state.buffer@ =~= state.buffer@ + padding_run(0, config.padding));
            }
        }
        let padding: u32 = if state.padding_count > 0xFFFF_FFFF {
            0xFFFF_FFFF
        } else {
            state.padding_count as u32
        };
        Ok((state.buffer, padding))
    }

    /// Builds the bytes of the block's fields. The data source is asked
    /// for everything that the fields name, and the result is what
    /// `spec_build` gives for its answers; without a data source, for no
    /// answer.
    pub fn build_bytestream<D: DataSource, S: ValueSink>(
        &self,
        data_source: Option<&D>,
        settings: &Settings,
        strict: bool,
        value_sink: &mut S,
    ) -> (r: Result<(Vec<u8>, u32), LayoutError>)
        ensures
            exists|answers: Answers|
                {
                    &&& data_source is None ==> answers == Answers::Leaf(Fetched::Nothing)
                    &&& data_source is Some ==> answers_fit(
                        answers,
                        self.data,
                        self.spec_config(*settings, strict),
                    )
                    &&& Self::built_as(
                        r,
                        final(value_sink).model(),
                        #[trigger] self.spec_build::<S>(
                            answers,
                            *settings,
                            strict,
                            old(value_sink).model(),
                        ),
                    )
                    &&& final(value_sink).model() == self.spec_build_sink::<S>(
                        answers,
                        *settings,
                        strict,
                        old(value_sink).model(),
                    )
                },
    {
        let answers = self.fetch(data_source, settings, strict);
        self.build_fetched(&answers, settings, strict, value_sink)
    }

    /// Builds `table` onto `state`: see `walk`. `path` holds the names that
    /// lead to `table` and is left as it was.
    #[verifier::rlimit(40)]
    pub fn build_bytestream_inner<S: ValueSink>(
        table: &Entry,
        answers: &Answers,
        state: &mut BuildState,
        config: &BuildConfig,
        value_sink: &mut S,
        path: &mut Vec<String>,
    ) -> (r: Result<(), LayoutError>)
        requires
            old(state).padding_count <= old(state).buffer@.len(),
        ensures
            match r {
                Ok(()) => walk::<S>(
                    *table,
                    *answers,
                    *config,
                    path_model(old(path)@),
                    old(state).with_sink(old(value_sink).model()),
                ) == Ok::<WalkState<S::Model>, LayoutError>(
                    final(state).with_sink(final(value_sink).model()),
                ) && final(path)@ == old(path)@
                    && final(state).padding_count <= final(state).buffer@.len(),
                Err(e) => walk::<S>(
                    *table,
                    *answers,
                    *config,
                    path_model(old(path)@),
                    old(state).with_sink(old(value_sink).model()),
                ) == Err::<WalkState<S::Model>, LayoutError>(e),
            },
            final(value_sink).model() == walk_sink::<S>(
                *table,
                *answers,
                *config,
                path_model(old(path)@),
                old(state).with_sink(old(value_sink).model()),
            ),
        decreases table,
    {
        let nothing = Fetched::Nothing;
        match table {
            Entry::Leaf(leaf) => {
                let fetched: &Fetched = match answers {
                    Answers::Leaf(fetched) => fetched,
                    Answers::Branch(_) => &nothing,
                };
                let alignment = leaf.get_alignment();
                let added = align_to(&mut state.buffer, alignment, config.padding);
                let length = state.buffer.len();
                state.padding_count = state.padding_count + added;
                let mut bytes = match leaf.emit_fetched(
                    fetched,
                    config,
                    value_sink,
                    path.as_slice(),
                ) {
                    Ok(b) => b,
                    Err(e) => {
                        return Err(e);
                    },
                };
                state.buffer.append(&mut bytes);
                Ok(())
            },
            Entry::Branch(branch) => {
                let ghost start = old(state).with_sink(old(value_sink).model());
                let ghost names = path_model(old(path)@);
                let unanswered = Answers::Leaf(Fetched::Nothing);
                let mut i: usize = 0;
                while i < branch.len()
                    invariant
                        i <= branch.len(),
                        *table == Entry::Branch(*branch),
                        unanswered == Answers::Leaf(Fetched::Nothing),
                        path@ == old(path)@,
                        names == path_model(old(path)@),
                        start == old(state).with_sink(old(value_sink).model()),
                        state.padding_count <= state.buffer@.len(),
                        walk_children::<S>(
                            *table,
                            i as nat,
                            *answers,
                            *config,
                            names,
                            state.with_sink(value_sink.model()),
                        ) == walk::<S>(*table, *answers, *config, names, start),
                        children_sink::<S>(
                            *table,
                            i as nat,
                            *answers,
                            *config,
                            names,
                            state.with_sink(value_sink.model()),
                        ) == walk_sink::<S>(*table, *answers, *config, names, start),
                    decreases branch.len() - i,
                {
                    let child = &branch[i];
                    let child_answer: &Answers = match answers {
                        Answers::Branch(children) => if i < children.len() {
                            &children[i]
                        } else {
                            &unanswered
                        },
                        Answers::Leaf(_) => &unanswered,
                    };
                    path.push(child.0.clone());
                    proof {
                        assert(path_model(path@) =~= names.push(child.0@));
                    }
                    match Self::build_bytestream_inner(
                        &child.1,
                        child_answer,
                        state,
                        config,
                        value_sink,
                        path,
                    ) {
                        Ok(()) => {},
                        Err(e) => {
                            return Err(LayoutError::InField { field: child.0.clone(), source: Box::new(e) });
                        },
                    }
                    path.pop();
                    proof {
                        assert(path@ =~= old(path)@);
                    }
                    i = i + 1;
                }
                Ok(())
            },
        }
    }
}

} // verus!
