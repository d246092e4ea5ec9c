//! Building the blocks that were asked for and gathering what they report.

pub mod stats;

use vstd::prelude::*;
use crate::data::DataSource;
use crate::error::MintError;
use crate::layout::args::BlockNames;
use crate::order::deduplicated;
use crate::layout::block::{
    answers_fit, block_at, block_by_name, block_count, block_entries, block_named, Answers,
    Block, Config,
};
use crate::layout::entry::Fetched;
use crate::layout::errors::{BlockArgumentFailure, LayoutError};
use crate::layout::settings::{endian_value, Endianness};
use crate::layout::used_values::{ExportModel, ExportValue, NoopValueSink, ValueCollector, ValueSink};
use crate::output::errors::{OutputError, Overlap};
use crate::output::args::OutputFormat;
use crate::output::{
    bytestream_to_datarange, clip_u32, emit_hex, hex_outcome, outcome_of, range_views,
    spec_assemble, DataRange, DataRangeView, HexOutcome,
};
use stats::{BlockStat, BuildStats};

verus! {

/// True where the spans of `a` and `b`, each from its start up to but not
/// including its end, have an address in common.
pub open spec fn intersects(a: (String, u32, u32), b: (String, u32, u32)) -> bool {
    (if a.1 >= b.1 {
        a.1
    } else {
        b.1
    }) < (if a.2 <= b.2 {
        a.2
    } else {
        b.2
    })
}

/// The overlap of two spans: their names and bounds, and the addresses from
/// the greater start up to the lesser end.
pub open spec fn overlap_of(a: (String, u32, u32), b: (String, u32, u32)) -> Overlap {
    Overlap {
        first: a.0,
        first_start: a.1,
        first_end: a.2,
        second: b.0,
        second_start: b.1,
        second_end: b.2,
        start: if a.1 >= b.1 {
            a.1
        } else {
            b.1
        },
        end: if a.2 <= b.2 {
            a.2
        } else {
            b.2
        },
    }
}

/// The overlaps of the span at `first` with the spans behind it and before
/// `until`, in order.
pub open spec fn overlaps_with(spans: Seq<(String, u32, u32)>, first: int, until: int) -> Seq<
    Overlap,
>
    decreases until,
{
    if until <= first + 1 || until > spans.len() || first < 0 {
        Seq::empty()
    } else {
        let before = overlaps_with(spans, first, until - 1);
        if intersects(spans[first], spans[until - 1]) {
            before.push(overlap_of(spans[first], spans[until - 1]))
        } else {
            before
        }
    }
}

/// The overlaps of every span before `until` with every span behind it: by
/// the first span, then by the second.
pub open spec fn overlaps_before(spans: Seq<(String, u32, u32)>, until: int) -> Seq<Overlap>
    decreases until,
{
    if until <= 0 || until > spans.len() {
        Seq::empty()
    } else {
        overlaps_before(spans, until - 1) + overlaps_with(spans, until - 1, spans.len() as int)
    }
}

/// Every overlap among `spans`.
pub open spec fn all_overlaps(spans: Seq<(String, u32, u32)>) -> Seq<Overlap> {
    overlaps_before(spans, spans.len() as int)
}

/// True where `overlap` is the overlap of the spans at `i` and `j`, of which
/// the first stands before the second, and which intersect.
pub open spec fn is_overlap_of(spans: Seq<(String, u32, u32)>, i: int, j: int, overlap: Overlap) -> bool {
    &&& 0 <= i < j < spans.len()
    &&& intersects(spans[i], spans[j])
    &&& overlap == overlap_of(spans[i], spans[j])
}

/// True where `overlap` is that of the span at `first` and a span behind it
/// and before `until`.
pub open spec fn explained_from(spans: Seq<(String, u32, u32)>, first: int, until: int, overlap: Overlap) -> bool {
    exists|j: int| j < until && #[trigger] is_overlap_of(spans, first, j, overlap)
}

/// True where `overlap` is that of a span before `until` and a span behind
/// that one.
pub open spec fn explained_before(spans: Seq<(String, u32, u32)>, until: int, overlap: Overlap) -> bool {
    exists|i: int, j: int| i < until && #[trigger] is_overlap_of(spans, i, j, overlap)
}

/// Every intersecting pair with the first span at `first` and the second
/// before `until` is among `overlaps_with`, and nothing else is.
pub proof fn lemma_overlaps_with(spans: Seq<(String, u32, u32)>, first: int, until: int)
    requires
        0 <= first < until <= spans.len(),
    ensures
        forall|j: int, o: Overlap|
            j < until && #[trigger] is_overlap_of(spans, first, j, o) ==> overlaps_with(
                spans,
                first,
                until,
            ).contains(o),
        forall|k: int|
            0 <= k < overlaps_with(spans, first, until).len() ==> explained_from(
                spans,
                first,
                until,
                #[trigger] overlaps_with(spans, first, until)[k],
            ),
    decreases until,
{
    if until > first + 1 {
        lemma_overlaps_with(spans, first, until - 1);
        let before = overlaps_with(spans, first, until - 1);
        let now = overlaps_with(spans, first, until);
        assert forall|j: int, o: Overlap|
            j < until && #[trigger] is_overlap_of(spans, first, j, o) implies now.contains(o) by {
            if j < until - 1 {
                assert(before.contains(o));
                let k = choose|k: int| 0 <= k < before.len() && before[k] == o;
                assert(now[k] == o);
            } else {
                assert(now[now.len() - 1] == o);
            }
        }
        assert forall|k: int| 0 <= k < now.len() implies explained_from(
            spans,
            first,
            until,
            #[trigger] now[k],
        ) by {
            if k < before.len() {
                assert(explained_from(spans, first, until - 1, before[k]));
                let j = choose|j: int|
                    j < until - 1 && #[trigger] is_overlap_of(spans, first, j, before[k]);
                assert(j < until && is_overlap_of(spans, first, j, now[k]));
            } else {
                assert(until - 1 < until && is_overlap_of(spans, first, until - 1, now[k]));
            }
        }
    }
}

/// Every intersecting pair of spans with the first before `until` is among
/// `overlaps_before`, and nothing else is.
pub proof fn lemma_overlaps_before(spans: Seq<(String, u32, u32)>, until: int)
    requires
        0 <= until <= spans.len(),
    ensures
        forall|i: int, j: int, o: Overlap|
            i < until && #[trigger] is_overlap_of(spans, i, j, o) ==> overlaps_before(
                spans,
                until,
            ).contains(o),
        forall|k: int|
            0 <= k < overlaps_before(spans, until).len() ==> explained_before(
                spans,
                until,
                #[trigger] overlaps_before(spans, until)[k],
            ),
    decreases until,
{
    if until > 0 {
        lemma_overlaps_before(spans, until - 1);
        lemma_overlaps_with(spans, until - 1, spans.len() as int);
        let before = overlaps_before(spans, until - 1);
        let added = overlaps_with(spans, until - 1, spans.len() as int);
        let now = overlaps_before(spans, until);
        assert forall|i: int, j: int, o: Overlap|
            i < until && #[trigger] is_overlap_of(spans, i, j, o) implies now.contains(o) by {
            if i < until - 1 {
                assert(before.contains(o));
                let k = choose|k: int| 0 <= k < before.len() && before[k] == o;
                assert(now[k] == o);
            } else {
                assert(added.contains(o));
                let k = choose|k: int| 0 <= k < added.len() && added[k] == o;
                assert(now[before.len() + k] == o);
            }
        }
        assert forall|k: int| 0 <= k < now.len() implies explained_before(
            spans,
            until,
            #[trigger] now[k],
        ) by {
            if k < before.len() {
                assert(explained_before(spans, until - 1, before[k]));
                let (i, j) = choose|i: int, j: int|
                    i < until - 1 && #[trigger] is_overlap_of(spans, i, j, before[k]);
                assert(i < until && is_overlap_of(spans, i, j, now[k]));
            } else {
                let o = added[k - before.len()];
                assert(explained_from(spans, until - 1, spans.len() as int, o));
                let j = choose|j: int|
                    j < spans.len() && #[trigger] is_overlap_of(spans, until - 1, j, o);
                assert(until - 1 < until && is_overlap_of(spans, until - 1, j, now[k]));
            }
        }
    }
}

/// The overlaps found are exactly those of the pairs of spans that
/// intersect: every two spans that intersect are reported with the range
/// they share, every report is of such a pair, and there is none where no
/// two spans intersect.
pub proof fn lemma_overlaps_are_the_intersections(spans: Seq<(String, u32, u32)>)
    ensures
        forall|i: int, j: int, o: Overlap| #[trigger]
            is_overlap_of(spans, i, j, o) ==> all_overlaps(spans).contains(o),
        forall|k: int|
            0 <= k < all_overlaps(spans).len() ==> explained_before(
                spans,
                spans.len() as int,
                #[trigger] all_overlaps(spans)[k],
            ),
        all_overlaps(spans).len() == 0 <==> forall|i: int, j: int|
            0 <= i < j < spans.len() ==> !#[trigger] intersects(spans[i], spans[j]),
{
    lemma_overlaps_before(spans, spans.len() as int);
    let all = all_overlaps(spans);
    assert forall|k: int| 0 <= k < all.len() implies explained_before(
        spans,
        spans.len() as int,
        #[trigger] all[k],
    ) by {
        assert(all[k] == overlaps_before(spans, spans.len() as int)[k]);
    }
    if all.len() == 0 {
        assert forall|i: int, j: int| 0 <= i < j < spans.len() implies !#[trigger] intersects(
            spans[i],
            spans[j],
        ) by {
            if intersects(spans[i], spans[j]) {
                assert(is_overlap_of(spans, i, j, overlap_of(spans[i], spans[j])));
                assert(all.contains(overlap_of(spans[i], spans[j])));
            }
        }
    } else {
        assert(explained_before(spans, spans.len() as int, all[0]));
        let (i, j) = choose|i: int, j: int|
            i < spans.len() && #[trigger] is_overlap_of(spans, i, j, all[0]);
        assert(0 <= i < j < spans.len() && intersects(spans[i], spans[j]));
    }
}

/// Reports every pair of spans that intersect, with the range they share.
/// A span is a name with the addresses from its start up to, not
/// including, its end.
#[verifier::rlimit(40)]
pub fn find_overlaps(block_ranges: &[(String, u32, u32)]) -> (r: Vec<Overlap>)
    ensures
        r@ == all_overlaps(block_ranges@),
{
    let mut found: Vec<Overlap> = Vec::new();
    let mut i: usize = 0;
    while i < block_ranges.len()
        invariant
            i <= block_ranges.len(),
            found@ == overlaps_before(block_ranges@, i as int),
        decreases block_ranges.len() - i,
    {
        let ghost before = found@;
        let mut j: usize = i + 1;
        while j < block_ranges.len()
            invariant
                i < block_ranges.len(),
                i + 1 <= j <= block_ranges.len(),
                before == overlaps_before(block_ranges@, i as int),
                found@ == before + overlaps_with(block_ranges@, i as int, j as int),
            decreases block_ranges.len() - j,
        {
            let a = &block_ranges[i];
            let b = &block_ranges[j];
            let overlap_start = if a.1 >= b.1 {
                a.1
            } else {
                b.1
            };
            let overlap_end = if a.2 <= b.2 {
                a.2
            } else {
                b.2
            };
            if overlap_start < overlap_end {
                found.push(
                    Overlap {
                        first: a.0.clone(),
                        first_start: a.1,
                        first_end: a.2,
                        second: b.0.clone(),
                        second_start: b.1,
                        second_end: b.2,
                        start: overlap_start,
                        end: overlap_end,
                    },
                );
            }
            j = j + 1;
            proof {
                assert(found@ =~= before + overlaps_with(block_ranges@, i as int, j as int));
            }
        }
        i = i + 1;
    }
    found
}

/// True for the error that reports exactly `overlaps`.
pub open spec fn reports_overlaps(e: MintError, overlaps: Seq<Overlap>) -> bool {
    match e {
        MintError::Output(OutputError::BlockOverlapError(reported)) => reported@ == overlaps,
        _ => false,
    }
}

/// Checks that no two spans intersect. Where some do, the error reports
/// every pair that intersects, with the range the two share, in the order
/// of the spans.
pub fn check_overlaps(block_ranges: &[(String, u32, u32)]) -> (r: Result<(), MintError>)
    ensures
        r is Ok <==> all_overlaps(block_ranges@).len() == 0,
        match r {
            Ok(()) => true,
            Err(e) => reports_overlaps(e, all_overlaps(block_ranges@)),
        },
{
    let found = find_overlaps(block_ranges);
    if found.len() == 0 {
        Ok(())
    } else {
        Err(MintError::Output(OutputError::BlockOverlapError(found)))
    }
}

/// A layout that has been read, with the name of the file it came from.
pub struct LoadedLayout {
    pub file: String,
    pub config: Config,
}

/// The place of the first layout that came from `file`.
pub open spec fn layout_index(layouts: Seq<LoadedLayout>, file: Seq<char>) -> Option<int>
    decreases layouts.len(),
{
    if layouts.len() == 0 {
        None
    } else if layouts[0].file@ == file {
        Some(0)
    } else {
        match layout_index(layouts.drop_first(), file) {
            Some(i) => Some(i + 1),
            None => None,
        }
    }
}

pub proof fn lemma_layout_index(layouts: Seq<LoadedLayout>, file: Seq<char>)
    ensures
        match layout_index(layouts, file) {
            Some(i) => 0 <= i < layouts.len() && layouts[i].file@ == file && forall|j: int|
                0 <= j < i ==> layouts[j].file@ != file,
            None => forall|j: int| 0 <= j < layouts.len() ==> layouts[j].file@ != file,
        },
    decreases layouts.len(),
{
    if layouts.len() > 0 && layouts[0].file@ != file {
        lemma_layout_index(layouts.drop_first(), file);
        match layout_index(layouts.drop_first(), file) {
            Some(i) => {
                assert forall|j: int| 0 <= j < i + 1 implies layouts[j].file@ != file by {
                    if j > 0 {
                        assert(layouts.drop_first()[j - 1].file@ != file);
                    }
                }
            },
            None => {
                assert forall|j: int| 0 <= j < layouts.len() implies layouts[j].file@ != file by {
                    if j > 0 {
                        assert(layouts.drop_first()[j - 1].file@ != file);
                    }
                }
            },
        }
    }
}

/// The first layout that came from `file`.
pub fn find_layout<'a>(layouts: &'a [LoadedLayout], file: &String) -> (r: Option<&'a LoadedLayout>)
    ensures
        match r {
            Some(layout) => layout_index(layouts@, file@) is Some && *layout == layouts@[layout_index(
                layouts@,
                file@,
            )->Some_0],
            None => layout_index(layouts@, file@) is None,
        },
{
    let mut i: usize = 0;
    while i < layouts.len()
        invariant
            i <= layouts.len(),
            forall|j: int| 0 <= j < i ==> layouts@[j].file@ != file@,
        decreases layouts.len() - i,
    {
        if layouts[i].file == *file {
            proof {
                lemma_layout_index(layouts@, file@);
            }
            return Some(&layouts[i]);
        }
        i = i + 1;
    }
    proof {
        lemma_layout_index(layouts@, file@);
    }
    None
}

/// A block request as a pair of texts: the file, then the block's name.
pub open spec fn request_key(request: BlockNames) -> (Seq<char>, Seq<char>) {
    (request.file@, request.name@)
}

/// The keys of a list of requests.
pub open spec fn request_keys(requests: Seq<BlockNames>) -> Seq<(Seq<char>, Seq<char>)> {
    Seq::new(requests.len(), |i: int| request_key(requests[i]))
}

/// The requests for the first `count` blocks of a layout, in their order.
pub open spec fn file_requests(file: Seq<char>, entries: Seq<(Seq<char>, Block)>, count: nat) -> Seq<
    (Seq<char>, Seq<char>),
> {
    Seq::new(count, |i: int| (file, entries[i].0))
}

/// What the block `name` of `file` stands for: itself where the name is
/// not empty, and every block of the file, in the file's order, where it
/// is. A file that was not read or that defines no block is refused.
pub open spec fn expanded_key(file: String, name: Seq<char>, layouts: Seq<LoadedLayout>) -> Result<
    Seq<(Seq<char>, Seq<char>)>,
    LayoutError,
> {
    if name.len() == 0 {
        match layout_index(layouts, file@) {
            None => Err(LayoutError::FileError(file)),
            Some(i) => {
                let entries = block_entries(layouts[i].config.blocks);
                if entries.len() == 0 {
                    Err(LayoutError::NoBlocksInLayout(file))
                } else {
                    Ok(file_requests(file@, entries, entries.len()))
                }
            },
        }
    } else {
        Ok(seq![(file@, name)])
    }
}

/// What one request stands for: itself where it names a block, and every
/// block of its file, in the file's order, where it names none. A file
/// that was not read or that defines no block is refused.
pub open spec fn expanded_request(request: BlockNames, layouts: Seq<LoadedLayout>) -> Result<
    Seq<(Seq<char>, Seq<char>)>,
    LayoutError,
> {
    expanded_key(request.file, request.name@, layouts)
}

/// What the first `count` requests stand for, one after the other; the
/// error of the first that is refused.
pub open spec fn expanded_requests(requests: Seq<BlockNames>, count: nat, layouts: Seq<LoadedLayout>) -> Result<
    Seq<(Seq<char>, Seq<char>)>,
    LayoutError,
>
    decreases count,
{
    if count == 0 || count > requests.len() {
        Ok(Seq::empty())
    } else {
        match expanded_requests(requests, (count - 1) as nat, layouts) {
            Err(e) => Err(e),
            Ok(done) => match expanded_request(requests[count - 1], layouts) {
                Err(e) => Err(e),
                Ok(more) => Ok(done + more),
            },
        }
    }
}

/// The blocks to build for `requests`: what the requests stand for, every
/// block once, in the order in which it first occurs. No request at all is
/// refused.
pub open spec fn spec_resolve_blocks(requests: Seq<BlockNames>, layouts: Seq<LoadedLayout>) -> Result<
    Seq<(Seq<char>, Seq<char>)>,
    LayoutError,
> {
    if requests.len() == 0 {
        Err(LayoutError::NoBlocksProvided)
    } else {
        match expanded_requests(requests, requests.len(), layouts) {
            Err(e) => Err(e),
            Ok(keys) => Ok(deduplicated(keys)),
        }
    }
}

/// Once a request is refused, the requests are refused with its error.
pub proof fn lemma_expansion_error_stays(
    requests: Seq<BlockNames>,
    count: nat,
    more: nat,
    layouts: Seq<LoadedLayout>,
)
    requires
        count <= more <= requests.len(),
        expanded_requests(requests, count, layouts) is Err,
    ensures
        expanded_requests(requests, more, layouts) == expanded_requests(requests, count, layouts),
    decreases more - count,
{
    if count < more {
        lemma_expansion_error_stays(requests, count, (more - 1) as nat, layouts);
    }
}

/// Tells whether `found` holds a request for the block `name` of `file`.
fn holds_request(found: &Vec<BlockNames>, file: &String, name: &String) -> (r: bool)
    ensures
        r == request_keys(found@).contains((file@, name@)),
{
    let mut i: usize = 0;
    while i < found.len()
        invariant
            i <= found.len(),
            forall|j: int| 0 <= j < i ==> request_keys(found@)[j] != (file@, name@),
        decreases found.len() - i,
    {
        if found[i].file == *file && found[i].name == *name {
            proof {
                assert(request_keys(found@)[i as int] == (file@, name@));
            }
            return true;
        }
        i = i + 1;
    }
    false
}

/// What the requests stand for, one after the other, against the layouts
/// that were read: see `expanded_requests`. A block that is asked for
/// twice stands twice.
#[verifier::rlimit(40)]
pub fn expand_requests(block_args: &[BlockNames], layouts: &[LoadedLayout]) -> (r: Result<
    Vec<BlockNames>,
    LayoutError,
>)
    ensures
        match r {
            Ok(blocks) => expanded_requests(block_args@, block_args@.len(), layouts@) == Ok::<
                Seq<(Seq<char>, Seq<char>)>,
                LayoutError,
            >(request_keys(blocks@)),
            Err(e) => expanded_requests(block_args@, block_args@.len(), layouts@) == Err::<
                Seq<(Seq<char>, Seq<char>)>,
                LayoutError,
            >(e),
        },
{
    let mut resolved: Vec<BlockNames> = Vec::new();
    let mut i: usize = 0;
    proof {
        assert(request_keys(resolved@) =~= Seq::empty());
    }
    while i < block_args.len()
        invariant
            i <= block_args.len(),
            expanded_requests(block_args@, i as nat, layouts@) == Ok::<
                Seq<(Seq<char>, Seq<char>)>,
                LayoutError,
            >(request_keys(resolved@)),
        decreases block_args.len() - i,
    {
        let arg = &block_args[i];
        let ghost done = request_keys(resolved@);
        if arg.name.as_str().is_empty() {
            let layout = match find_layout(layouts, &arg.file) {
                Some(l) => l,
                None => {
                    proof {
                        lemma_expansion_error_stays(
                            block_args@,
                            (i + 1) as nat,
                            block_args@.len(),
                            layouts@,
                        );
                    }
                    return Err(LayoutError::FileError(arg.file.clone()));
                },
            };
            let count = block_count(&layout.config.blocks);
            if count == 0 {
                proof {
                    lemma_expansion_error_stays(
                        block_args@,
                        (i + 1) as nat,
                        block_args@.len(),
                        layouts@,
                    );
                }
                return Err(LayoutError::NoBlocksInLayout(arg.file.clone()));
            }
            let ghost entries = block_entries(layout.config.blocks);
            let mut k: usize = 0;
            proof {
                assert(request_keys(resolved@) =~= done + file_requests(arg.file@, entries, 0));
            }
            while k < count
                invariant
                    k <= count,
                    count == entries.len(),
                    entries == block_entries(layout.config.blocks),
                    request_keys(resolved@) == done + file_requests(arg.file@, entries, k as nat),
                decreases count - k,
            {
                let ghost listed = request_keys(resolved@);
                match block_at(&layout.config.blocks, k) {
                    Some((name, _)) => {
                        let next = BlockNames { name: name.clone(), file: arg.file.clone() };
                        proof {
                            assert(request_key(next) == (arg.file@, entries[k as int].0));
                        }
                        resolved.push(next);
                        proof {
                            assert(request_keys(resolved@) =~= listed.push(
                                (arg.file@, entries[k as int].0),
                            ));
                            assert(file_requests(arg.file@, entries, (k + 1) as nat) =~= file_requests(
                                arg.file@,
                                entries,
                                k as nat,
                            ).push((arg.file@, entries[k as int].0)));
                        }
                    },
                    None => {},
                }
                k = k + 1;
                proof {
                    assert(request_keys(resolved@) =~= done + file_requests(
                        arg.file@,
                        entries,
                        k as nat,
                    ));
                }
            }
        } else {
            resolved.push(arg.clone());
            proof {
                assert(request_keys(resolved@) =~= done + seq![request_key(*arg)]);
            }
        }
        i = i + 1;
    }
    Ok(resolved)
}

/// Resolves the requested blocks against the layouts that were read: see
/// `spec_resolve_blocks`.
#[verifier::rlimit(40)]
pub fn resolve_blocks(block_args: &[BlockNames], layouts: &[LoadedLayout]) -> (r: Result<
    Vec<BlockNames>,
    LayoutError,
>)
    ensures
        match r {
            Ok(blocks) => spec_resolve_blocks(block_args@, layouts@) == Ok::<
                Seq<(Seq<char>, Seq<char>)>,
                LayoutError,
            >(request_keys(blocks@)),
            Err(e) => spec_resolve_blocks(block_args@, layouts@) == Err::<
                Seq<(Seq<char>, Seq<char>)>,
                LayoutError,
            >(e),
        },
{
    if block_args.len() == 0 {
        return Err(LayoutError::NoBlocksProvided);
    }
    let resolved = match expand_requests(block_args, layouts) {
        Ok(resolved) => resolved,
        Err(e) => {
            return Err(e);
        },
    };
    let ghost keys = request_keys(resolved@);
    let mut unique: Vec<BlockNames> = Vec::new();
    let mut j: usize = 0;
    proof {
        assert(request_keys(unique@) =~= deduplicated(keys.take(0)));
    }
    while j < resolved.len()
        invariant
            j <= resolved.len(),
            keys == request_keys(resolved@),
            request_keys(unique@) == deduplicated(keys.take(j as int)),
        decreases resolved.len() - j,
    {
        let ghost before = request_keys(unique@);
        proof {
            assert(keys.take(j + 1).drop_last() =~= keys.take(j as int));
            assert(keys.take(j + 1).last() == request_key(resolved@[j as int]));
        }
        if !holds_request(&unique, &resolved[j].file, &resolved[j].name) {
            unique.push(resolved[j].clone());
            proof {
                assert(request_keys(unique@) =~= before.push(request_key(resolved@[j as int])));
            }
        }
        j = j + 1;
    }
    proof {
        assert(keys.take(resolved@.len() as int) =~= keys);
    }
    Ok(unique)
}

/// The files that the requests name, each once, in the order in which it
/// first occurs: the layouts to read before the requests can be resolved.
pub fn distinct_files(block_args: &[BlockNames]) -> (r: Vec<String>)
    ensures
        file_names(r@) == deduplicated(requested_files(block_args@)),
{
    let mut files: Vec<String> = Vec::new();
    let ghost wanted = requested_files(block_args@);
    let mut i: usize = 0;
    proof {
        assert(file_names(files@) =~= deduplicated(wanted.take(0)));
    }
    while i < block_args.len()
        invariant
            i <= block_args.len(),
            wanted == requested_files(block_args@),
            file_names(files@) == deduplicated(wanted.take(i as int)),
        decreases block_args.len() - i,
    {
        let ghost before = file_names(files@);
        proof {
            assert(wanted.take(i + 1).drop_last() =~= wanted.take(i as int));
            assert(wanted.take(i + 1).last() == block_args@[i as int].file@);
        }
        let mut known = false;
        let mut k: usize = 0;
        while k < files.len()
            invariant
                k <= files.len(),
                i < block_args.len(),
                known == exists|j: int|
                    0 <= j < k && #[trigger] file_names(files@)[j] == block_args@[i as int].file@,
            decreases files.len() - k,
        {
            if files[k] == block_args[i].file {
                proof {
                    assert(file_names(files@)[k as int] == block_args@[i as int].file@);
                }
                known = true;
            }
            k = k + 1;
        }
        if !known {
            files.push(block_args[i].file.clone());
            proof {
                assert(file_names(files@) =~= before.push(block_args@[i as int].file@));
            }
        }
        i = i + 1;
    }
    proof {
        assert(wanted.take(block_args@.len() as int) =~= wanted);
    }
    files
}

/// The texts of a list of file names.
pub open spec fn file_names(files: Seq<String>) -> Seq<Seq<char>> {
    Seq::new(files.len(), |i: int| files[i]@)
}

/// The file of every request, in the order of the requests.
pub open spec fn requested_files(requests: Seq<BlockNames>) -> Seq<Seq<char>> {
    Seq::new(requests.len(), |i: int| requests[i].file@)
}

/// A block that has been built.
#[derive(Debug)]
pub struct BlockBuildResult {
    pub block_names: BlockNames,
    pub data_range: DataRange,
    pub stat: BlockStat,
    /// The values that the block resolved, as one group, where they were
    /// captured.
    pub values: Option<ExportValue>,
}

/// The mathematical content of a `BlockBuildResult`.
pub struct BlockBuildView {
    pub block_names: BlockNames,
    pub data_range: DataRangeView,
    pub stat: BlockStat,
    pub values: Option<ExportModel>,
}

impl View for BlockBuildResult {
    type V = BlockBuildView;

    open spec fn view(&self) -> BlockBuildView {
        BlockBuildView {
            block_names: self.block_names,
            data_range: self.data_range@,
            stat: self.stat,
            values: match self.values {
                Some(v) => Some(v@),
                None => None,
            },
        }
    }
}

impl Clone for BlockBuildResult {
    fn clone(&self) -> (r: Self)
        ensures
            r@ == self@,
    {
        BlockBuildResult {
            block_names: self.block_names.clone(),
            data_range: self.data_range.clone(),
            stat: self.stat.clone(),
            values: match &self.values {
                Some(values) => Some(values.duplicate()),
                None => None,
            },
        }
    }
}

/// The CRC that four or more CRC bytes spell in the given byte order;
/// nothing for fewer bytes.
pub open spec fn crc_value_of(bytes: Seq<u8>, endianness: Endianness) -> Option<u32> {
    if bytes.len() < 4 {
        None
    } else {
        Some(endian_value(bytes.take(4), endianness) as u32)
    }
}

/// Reads the CRC back from its bytes.
pub fn extract_crc_value(crc_bytestream: &[u8], endianness: &Endianness) -> (r: Option<u32>)
    ensures
        r == crc_value_of(crc_bytestream@, *endianness),
{
    if crc_bytestream.len() < 4 {
        return None;
    }
    let b0 = crc_bytestream[0] as u32;
    let b1 = crc_bytestream[1] as u32;
    let b2 = crc_bytestream[2] as u32;
    let b3 = crc_bytestream[3] as u32;
    proof {
        let four = crc_bytestream@.take(4);
        reveal_with_fuel(crate::layout::settings::le_value, 5);
        assert(four.drop_first().drop_first().drop_first().drop_first().len() == 0);
        let back = four.reverse();
        assert(back.drop_first().drop_first().drop_first().drop_first().len() == 0);
        assert(back[0] == four[3] && back[1] == four[2] && back[2] == four[1] && back[3]
            == four[0]);
    }
    Some(
        match endianness {
            Endianness::Little => b0 + 0x100 * b1 + 0x1_0000 * b2 + 0x100_0000 * b3,
            Endianness::Big => b3 + 0x100 * b2 + 0x1_0000 * b1 + 0x100_0000 * b0,
        },
    )
}

/// What a built block reports.
pub open spec fn stat_of(name: String, range: DataRangeView, endianness: Endianness) -> BlockStat {
    BlockStat {
        name,
        start_address: range.start_address,
        allocated_size: range.allocated_size,
        used_size: range.used_size,
        crc_value: crc_value_of(range.crc_bytestream, endianness),
    }
}

/// The bytes of a block, the number of them that are alignment padding,
/// and the values it resolved where they are captured, given what the data
/// source answered.
pub open spec fn built_block(
    block: Block,
    config: Config,
    answers: Answers,
    strict: bool,
    capture_values: bool,
) -> Result<(Seq<u8>, nat, Option<ExportModel>), LayoutError> {
    if capture_values {
        match block.spec_build::<ValueCollector>(answers, config.settings, strict, Seq::empty()) {
            Err(e) => Err(e),
            Ok(state) => Ok((state.bytes, state.padding, Some(ExportModel::Group(state.sink)))),
        }
    } else {
        match block.spec_build::<NoopValueSink>(answers, config.settings, strict, ()) {
            Err(e) => Err(e),
            Ok(state) => Ok((state.bytes, state.padding, None)),
        }
    }
}

/// The block that `resolved` names, where its layout has been read and
/// defines it.
pub open spec fn named_block(resolved: BlockNames, layouts: Seq<LoadedLayout>) -> Option<
    (Block, Config),
> {
    match layout_index(layouts, resolved.file@) {
        None => None,
        Some(i) => match block_named(block_entries(layouts[i].config.blocks), resolved.name@) {
            None => None,
            Some(block) => Some((block, layouts[i].config)),
        },
    }
}

/// What building the block `resolved` gives, before any error is wrapped.
/// The block's layout must have been read and must define the block. The
/// block's fields are built from the answers and the bytes assembled.
pub open spec fn block_outcome_inner(
    resolved: BlockNames,
    layouts: Seq<LoadedLayout>,
    answers: Answers,
    strict: bool,
    capture_values: bool,
) -> Result<BlockBuildView, MintError> {
    match layout_index(layouts, resolved.file@) {
        None => Err(MintError::Layout(LayoutError::FileError(resolved.file))),
        Some(i) => {
            let config = layouts[i].config;
            match block_named(block_entries(config.blocks), resolved.name@) {
                None => Err(MintError::Layout(LayoutError::BlockNotFound(resolved.name))),
                Some(block) => match built_block(block, config, answers, strict, capture_values) {
                    Err(e) => Err(MintError::Layout(e)),
                    Ok((bytes, padding, values)) => match spec_assemble(
                        bytes,
                        block.header,
                        config.settings,
                        clip_u32(padding as int),
                    ) {
                        Err(e) => Err(MintError::Output(e)),
                        Ok(range) => Ok(
                            BlockBuildView {
                                block_names: resolved,
                                data_range: range,
                                stat: stat_of(resolved.name, range, config.settings.endianness),
                                values,
                            },
                        ),
                    },
                },
            }
        },
    }
}

/// What building the block `resolved` gives, given what the data source
/// answered for its fields. An error is wrapped with the block's name and
/// its layout file.
pub open spec fn block_outcome(
    resolved: BlockNames,
    layouts: Seq<LoadedLayout>,
    answers: Answers,
    strict: bool,
    capture_values: bool,
) -> Result<BlockBuildView, MintError> {
    match block_outcome_inner(resolved, layouts, answers, strict, capture_values) {
        Ok(built) => Ok(built),
        Err(e) => Err(
            MintError::InBlock {
                block_name: resolved.name,
                layout_file: resolved.file,
                source: Box::new(e),
            },
        ),
    }
}

/// True where `r` is what `expected` says.
pub open spec fn built_as(r: Result<BlockBuildResult, MintError>, expected: Result<
    BlockBuildView,
    MintError,
>) -> bool {
    match r {
        Ok(built) => expected == Ok::<BlockBuildView, MintError>(built@),
        Err(e) => expected == Err::<BlockBuildView, MintError>(e),
    }
}

/// True where `answers` answer the block `resolved`: nothing was asked
/// without a data source or where the block is not at hand; else every
/// field has an answer to what it asks.
pub open spec fn answers_block(
    answers: Answers,
    resolved: BlockNames,
    layouts: Seq<LoadedLayout>,
    has_source: bool,
    strict: bool,
) -> bool {
    match named_block(resolved, layouts) {
        Some((block, config)) => if has_source {
            answers_fit(answers, block.data, block.spec_config(config.settings, strict))
        } else {
            answers == Answers::Leaf(Fetched::Nothing)
        },
        None => answers == Answers::Leaf(Fetched::Nothing),
    }
}

/// Asks the data source for everything that the fields of the block
/// `resolved` name. Nothing is asked without a data source, or where the
/// block is not at hand.
pub fn fetch_block<D: DataSource>(
    resolved: &BlockNames,
    layouts: &[LoadedLayout],
    data_source: Option<&D>,
    strict: bool,
) -> (answers: Answers)
    ensures
        answers_block(answers, *resolved, layouts@, data_source is Some, strict),
{
    let layout = match find_layout(layouts, &resolved.file) {
        Some(l) => l,
        None => {
            return Answers::Leaf(Fetched::Nothing);
        },
    };
    match block_by_name(&layout.config.blocks, resolved.name.as_str()) {
        Some(block) => block.fetch(data_source, &layout.config.settings, strict),
        None => Answers::Leaf(Fetched::Nothing),
    }
}

#[verifier::rlimit(40)]

fn build_block(
    resolved: &BlockNames,
    layouts: &[LoadedLayout],
    answers: &Answers,
    strict: bool,
    capture_values: bool,
) -> (r: Result<BlockBuildResult, MintError>)
    ensures
        built_as(r, block_outcome_inner(*resolved, layouts@, *answers, strict, capture_values)),
{
    let layout = match find_layout(layouts, &resolved.file) {
        Some(l) => l,
        None => {
            return Err(MintError::Layout(LayoutError::FileError(resolved.file.clone())));
        },
    };
    let block = match block_by_name(&layout.config.blocks, resolved.name.as_str()) {
        Some(b) => b,
        None => {
            return Err(MintError::Layout(LayoutError::BlockNotFound(resolved.name.clone())));
        },
    };
    let settings = &layout.config.settings;
    let (bytestream, padding_bytes, values) = if capture_values {
        let mut collector = ValueCollector::new();
        match block.build_fetched(answers, settings, strict, &mut collector) {
            Ok((bytes, padding)) => (bytes, padding, Some(collector.into_value())),
            Err(e) => {
                return Err(MintError::Layout(e));
            },
        }
    } else {
        let mut sink = NoopValueSink;
        match block.build_fetched(answers, settings, strict, &mut sink) {
            Ok((bytes, padding)) => (bytes, padding, None),
            Err(e) => {
                return Err(MintError::Layout(e));
            },
        }
    };
    let data_range = match bytestream_to_datarange(bytestream, &block.header, settings, padding_bytes) {
        Ok(range) => range,
        Err(e) => {
            return Err(MintError::Output(e));
        },
    };
    let crc_value = extract_crc_value(data_range.crc_bytestream.as_slice(), &settings.endianness);
    let stat = BlockStat {
        name: resolved.name.clone(),
        start_address: data_range.start_address,
        allocated_size: data_range.allocated_size,
        used_size: data_range.used_size,
        crc_value,
    };
    Ok(BlockBuildResult { block_names: resolved.clone(), data_range, stat, values })
}

/// Builds one block from what the data source answered for its fields:
/// see `block_outcome`.
pub fn build_fetched_block(
    resolved: &BlockNames,
    layouts: &[LoadedLayout],
    answers: &Answers,
    strict: bool,
    capture_values: bool,
) -> (r: Result<BlockBuildResult, MintError>)
    ensures
        built_as(r, block_outcome(*resolved, layouts@, *answers, strict, capture_values)),
{
    match build_block(resolved, layouts, answers, strict, capture_values) {
        Ok(built) => Ok(built),
        Err(e) => Err(
            MintError::InBlock {
                block_name: resolved.name.clone(),
                layout_file: resolved.file.clone(),
                source: Box::new(e),
            },
        ),
    }
}

/// Builds one block. The data source is asked for everything that the
/// block's fields name, and the result is what `block_outcome` gives for
/// its answers.
pub fn build_single_bytestream<D: DataSource>(
    resolved: &BlockNames,
    layouts: &[LoadedLayout],
    data_source: Option<&D>,
    strict: bool,
    capture_values: bool,
) -> (r: Result<BlockBuildResult, MintError>)
    ensures
        exists|answers: Answers|
            answers_block(answers, *resolved, layouts@, data_source is Some, strict) && built_as(
                r,
                #[trigger] block_outcome(*resolved, layouts@, answers, strict, capture_values),
            ),
{
    let answers = fetch_block(resolved, layouts, data_source, strict);
    build_fetched_block(resolved, layouts, &answers, strict, capture_values)
}

/// True where `r` is the outcome of building all of `blocks` from the
/// answers `answers`, one for each block: the built blocks in the order of
/// `blocks` where every block can be built, and else the error of the
/// first block that cannot.
pub open spec fn is_build_of(
    r: Result<Vec<BlockBuildResult>, MintError>,
    blocks: Seq<BlockNames>,
    layouts: Seq<LoadedLayout>,
    answers: Seq<Answers>,
    strict: bool,
    capture_values: bool,
) -> bool {
    &&& answers.len() == blocks.len()
    &&& match r {
        Ok(built) => built@.len() == blocks.len() && forall|i: int|
            0 <= i < blocks.len() ==> #[trigger] block_outcome(
                blocks[i],
                layouts,
                answers[i],
                strict,
                capture_values,
            ) == Ok::<BlockBuildView, MintError>(built@[i]@),
        Err(e) => exists|i: int|
            0 <= i < blocks.len() && #[trigger] block_outcome(
                blocks[i],
                layouts,
                answers[i],
                strict,
                capture_values,
            ) == Err::<BlockBuildView, MintError>(e) && forall|j: int|
                0 <= j < i ==> #[trigger] block_outcome(
                    blocks[j],
                    layouts,
                    answers[j],
                    strict,
                    capture_values,
                ) is Ok,
    }
}

/// The outcomes of single builds gathered into one: the built blocks in
/// their order, or the first error in that order, whatever the order in
/// which the builds were run.
#[verifier::rlimit(40)]
pub fn collect_results(results: Vec<Result<BlockBuildResult, MintError>>) -> (r: Result<
    Vec<BlockBuildResult>,
    MintError,
>)
    ensures
        match r {
            Ok(built) => built@.len() == results@.len() && forall|i: int|
                0 <= i < results@.len() ==> results@[i] == Ok::<BlockBuildResult, MintError>(
                    #[trigger] built@[i],
                ),
            Err(e) => exists|i: int|
                0 <= i < results@.len() && #[trigger] results@[i] == Err::<
                    BlockBuildResult,
                    MintError,
                >(e) && forall|j: int| 0 <= j < i ==> (#[trigger] results@[j]) is Ok,
        },
{
    let mut results = results;
    let ghost all = results@;
    let mut kept: Vec<BlockBuildResult> = Vec::new();
    let mut failed: Option<MintError> = None;
    // The results are taken from the end, so that the error that stays is
    // the first one.
    while results.len() > 0
        invariant
            results@ == all.take(results@.len() as int),
            match failed {
                Some(e) => exists|i: int|
                    results@.len() <= i < all.len() && #[trigger] all[i] == Err::<
                        BlockBuildResult,
                        MintError,
                    >(e) && forall|j: int| results@.len() <= j < i ==> (#[trigger] all[j]) is Ok,
                None => kept@.len() == all.len() - results@.len() && forall|j: int|
                    results@.len() <= j < all.len() ==> all[j] == Ok::<BlockBuildResult, MintError>(
                        #[trigger] kept@[all.len() - 1 - j],
                    ),
            },
        decreases results@.len(),
    {
        let ghost left = results@.len();
        let last = results.pop();
        proof {
            assert(results@ =~= all.take(results@.len() as int));
        }
        match last {
            Some(Ok(built)) => {
                if failed.is_none() {
                    kept.push(built);
                }
            },
            Some(Err(e)) => {
                proof {
                    assert(all[left - 1] == Err::<BlockBuildResult, MintError>(e));
                }
                failed = Some(e);
            },
            None => {},
        }
    }
    match failed {
        Some(e) => Err(e),
        None => {
            let mut ordered: Vec<BlockBuildResult> = Vec::new();
            let ghost reversed = kept@;
            while kept.len() > 0
                invariant
                    kept@ == reversed.take(kept@.len() as int),
                    ordered@.len() == reversed.len() - kept@.len(),
                    forall|i: int|
                        0 <= i < ordered@.len() ==> #[trigger] ordered@[i] == reversed[reversed.len()
                            - 1 - i],
                decreases kept@.len(),
            {
                let ghost left = kept@.len();
                match kept.pop() {
                    Some(built) => {
                        ordered.push(built);
                    },
                    None => {},
                }
                proof {
                    assert(kept@ =~= reversed.take(kept@.len() as int));
                }
            }
            Ok(ordered)
        },
    }
}

/// Asks the data source for everything that the fields of the blocks name,
/// block by block.
pub fn fetch_blocks<D: DataSource>(
    blocks: &[BlockNames],
    layouts: &[LoadedLayout],
    data_source: Option<&D>,
    strict: bool,
) -> (answers: Vec<Answers>)
    ensures
        answers@.len() == blocks@.len(),
        forall|i: int|
            0 <= i < blocks@.len() ==> answers_block(
                #[trigger] answers@[i],
                blocks@[i],
                layouts@,
                data_source is Some,
                strict,
            ),
{
    let mut answers: Vec<Answers> = Vec::new();
    let mut i: usize = 0;
    while i < blocks.len()
        invariant
            i <= blocks.len(),
            answers@.len() == i,
            forall|j: int|
                0 <= j < i ==> answers_block(
                    #[trigger] answers@[j],
                    blocks@[j],
                    layouts@,
                    data_source is Some,
                    strict,
                ),
        decreases blocks.len() - i,
    {
        answers.push(fetch_block(&blocks[i], layouts, data_source, strict));
        i = i + 1;
    }
    answers
}

/// Builds every block of `blocks` from the answers for it. A block that
/// fails does not keep the others from being built; the first error in the
/// order of `blocks` is the error of the whole.
#[verifier::rlimit(40)]
pub fn build_fetched_blocks(
    blocks: &[BlockNames],
    layouts: &[LoadedLayout],
    answers: &[Answers],
    strict: bool,
    capture_values: bool,
) -> (r: Result<Vec<BlockBuildResult>, MintError>)
    requires
        answers@.len() == blocks@.len(),
    ensures
        is_build_of(r, blocks@, layouts@, answers@, strict, capture_values),
{
    let mut outcomes: Vec<Result<BlockBuildResult, MintError>> = Vec::new();
    let mut i: usize = 0;
    while i < blocks.len()
        invariant
            i <= blocks.len(),
            answers@.len() == blocks@.len(),
            outcomes@.len() == i,
            forall|j: int|
                0 <= j < i ==> built_as(
                    #[trigger] outcomes@[j],
                    block_outcome(blocks@[j], layouts@, answers@[j], strict, capture_values),
                ),
        decreases blocks.len() - i,
    {
        let outcome = build_fetched_block(&blocks[i], layouts, &answers[i], strict, capture_values);
        outcomes.push(outcome);
        i = i + 1;
    }
    let r = collect_results(outcomes);
    proof {
        match &r {
            Ok(built) => {
                assert forall|i: int| 0 <= i < blocks@.len() implies #[trigger] block_outcome(
                    blocks@[i],
                    layouts@,
                    answers@[i],
                    strict,
                    capture_values,
                ) == Ok::<BlockBuildView, MintError>(built@[i]@) by {
                    assert(outcomes@[i] == Ok::<BlockBuildResult, MintError>(built@[i]));
                }
            },
            Err(e) => {
                let i = choose|i: int|
                    0 <= i < outcomes@.len() && #[trigger] outcomes@[i] == Err::<
                        BlockBuildResult,
                        MintError,
                    >(*e) && forall|j: int| 0 <= j < i ==> (#[trigger] outcomes@[j]) is Ok;
                assert(block_outcome(blocks@[i], layouts@, answers@[i], strict, capture_values)
                    == Err::<BlockBuildView, MintError>(*e));
                assert forall|j: int| 0 <= j < i implies #[trigger] block_outcome(
                    blocks@[j],
                    layouts@,
                    answers@[j],
                    strict,
                    capture_values,
                ) is Ok by {
                    assert(outcomes@[j] is Ok);
                }
            },
        }
    }
    r
}

/// Builds every block of `blocks`. The data source is asked for everything
/// that the blocks' fields name, and the result is the outcome of building
/// the blocks from its answers.
pub fn build_bytestreams<D: DataSource>(
    blocks: &[BlockNames],
    layouts: &[LoadedLayout],
    data_source: Option<&D>,
    strict: bool,
    capture_values: bool,
) -> (r: Result<Vec<BlockBuildResult>, MintError>)
    ensures
        exists|answers: Seq<Answers>|
            {
                &&& #[trigger] is_build_of(r, blocks@, layouts@, answers, strict, capture_values)
                &&& forall|i: int|
                    0 <= i < blocks@.len() ==> answers_block(
                        #[trigger] answers[i],
                        blocks@[i],
                        layouts@,
                        data_source is Some,
                        strict,
                    )
            },
{
    let answers = fetch_blocks(blocks, layouts, data_source, strict);
    let r = build_fetched_blocks(blocks, layouts, answers.as_slice(), strict, capture_values);
    proof {
        assert(is_build_of(r, blocks@, layouts@, answers@, strict, capture_values));
    }
    r
}

/// True where two builds ended alike: with the same error, or with blocks
/// of the same content in the same order.
pub open spec fn same_outcome(
    first: Result<Vec<BlockBuildResult>, MintError>,
    second: Result<Vec<BlockBuildResult>, MintError>,
) -> bool {
    match (first, second) {
        (Ok(a), Ok(b)) => a@.len() == b@.len() && forall|i: int|
            0 <= i < a@.len() ==> (#[trigger] a@[i])@ == b@[i]@,
        (Err(a), Err(b)) => a == b,
        _ => false,
    }
}

/// A build is determined by what it is given: two builds of the same
/// blocks from the same layouts and the same answers of the data source,
/// in the same mode, end alike, byte for byte and in the same order.
pub proof fn lemma_build_is_deterministic(
    first: Result<Vec<BlockBuildResult>, MintError>,
    second: Result<Vec<BlockBuildResult>, MintError>,
    blocks: Seq<BlockNames>,
    layouts: Seq<LoadedLayout>,
    answers: Seq<Answers>,
    strict: bool,
    capture_values: bool,
)
    requires
        is_build_of(first, blocks, layouts, answers, strict, capture_values),
        is_build_of(second, blocks, layouts, answers, strict, capture_values),
    ensures
        same_outcome(first, second),
{
    match (first, second) {
        (Ok(a), Ok(b)) => {
            assert forall|i: int| 0 <= i < a@.len() implies (#[trigger] a@[i])@ == b@[i]@ by {
                let o = block_outcome(blocks[i], layouts, answers[i], strict, capture_values);
                assert(o == Ok::<BlockBuildView, MintError>(a@[i]@));
                assert(o == Ok::<BlockBuildView, MintError>(b@[i]@));
            }
        },
        (Err(x), Err(y)) => {
            let i = choose|i: int|
                0 <= i < blocks.len() && #[trigger] block_outcome(
                    blocks[i],
                    layouts,
                    answers[i],
                    strict,
                    capture_values,
                ) == Err::<BlockBuildView, MintError>(x) && forall|j: int|
                    0 <= j < i ==> #[trigger] block_outcome(
                        blocks[j],
                        layouts,
                        answers[j],
                        strict,
                        capture_values,
                    ) is Ok;
            let k = choose|k: int|
                0 <= k < blocks.len() && #[trigger] block_outcome(
                    blocks[k],
                    layouts,
                    answers[k],
                    strict,
                    capture_values,
                ) == Err::<BlockBuildView, MintError>(y) && forall|j: int|
                    0 <= j < k ==> #[trigger] block_outcome(
                        blocks[j],
                        layouts,
                        answers[j],
                        strict,
                        capture_values,
                    ) is Ok;
            if i < k {
                assert(block_outcome(blocks[i], layouts, answers[i], strict, capture_values) is Ok);
            } else if k < i {
                assert(block_outcome(blocks[k], layouts, answers[k], strict, capture_values) is Ok);
            }
        },
        (Ok(a), Err(y)) => {
            let k = choose|k: int|
                0 <= k < blocks.len() && #[trigger] block_outcome(
                    blocks[k],
                    layouts,
                    answers[k],
                    strict,
                    capture_values,
                ) == Err::<BlockBuildView, MintError>(y);
            assert(block_outcome(blocks[k], layouts, answers[k], strict, capture_values) is Ok);
        },
        (Err(x), Ok(b)) => {
            let i = choose|i: int|
                0 <= i < blocks.len() && #[trigger] block_outcome(
                    blocks[i],
                    layouts,
                    answers[i],
                    strict,
                    capture_values,
                ) == Err::<BlockBuildView, MintError>(x);
            assert(block_outcome(blocks[i], layouts, answers[i], strict, capture_values) is Ok);
        },
    }
}

/// The statistics of built blocks, in their order.
pub fn collect_stats(results: &[BlockBuildResult]) -> (r: BuildStats)
    ensures
        r.wf(),
        r.block_stats@.len() == results@.len(),
        forall|i: int| 0 <= i < results@.len() ==> #[trigger] r.block_stats@[i] == results@[i].stat,
{
    let mut stats = BuildStats::new();
    let mut i: usize = 0;
    while i < results.len()
        invariant
            i <= results.len(),
            stats.wf(),
            stats.block_stats@.len() == i,
            forall|j: int| 0 <= j < i ==> #[trigger] stats.block_stats@[j] == results@[j].stat,
        decreases results.len() - i,
    {
        stats.add_block(results[i].stat.clone());
        i = i + 1;
    }
    stats
}

/// The address span of a built block as its layout declares it: from the
/// block's start address plus the virtual offset, over the block's length.
/// The block must be at hand, and the span must stay within 32 bits.
pub open spec fn declared_span(names: BlockNames, layouts: Seq<LoadedLayout>) -> Result<
    (String, u32, u32),
    MintError,
> {
    match layout_index(layouts, names.file@) {
        None => Err(MintError::Layout(LayoutError::FileError(names.file))),
        Some(i) => {
            let config = layouts[i].config;
            match block_named(block_entries(config.blocks), names.name@) {
                None => Err(MintError::Layout(LayoutError::BlockNotFound(names.name))),
                Some(block) => {
                    let start = block.header.start_address + config.settings.virtual_offset;
                    let end = start + block.header.length;
                    if start > u32::MAX {
                        Err(
                            MintError::Layout(
                                LayoutError::InvalidBlockArgument(
                                    BlockArgumentFailure::StartOverflow,
                                ),
                            ),
                        )
                    } else if end > u32::MAX {
                        Err(
                            MintError::Layout(
                                LayoutError::InvalidBlockArgument(BlockArgumentFailure::EndOverflow),
                            ),
                        )
                    } else {
                        Ok((names.name, start as u32, end as u32))
                    }
                },
            }
        },
    }
}

/// The declared spans of the first `count` built blocks, or the error of
/// the first that has none.
pub open spec fn declared_spans(results: Seq<BlockBuildResult>, count: nat, layouts: Seq<LoadedLayout>) -> Result<
    Seq<(String, u32, u32)>,
    MintError,
>
    decreases count,
{
    if count == 0 || count > results.len() {
        Ok(Seq::empty())
    } else {
        match declared_spans(results, (count - 1) as nat, layouts) {
            Err(e) => Err(e),
            Ok(spans) => match declared_span(results[count - 1].block_names, layouts) {
                Err(e) => Err(e),
                Ok(span) => Ok(spans.push(span)),
            },
        }
    }
}

/// Once a block has no span, the blocks have none.
pub proof fn lemma_span_error_stays(results: Seq<BlockBuildResult>, count: nat, more: nat, layouts: Seq<LoadedLayout>)
    requires
        count <= more <= results.len(),
        declared_spans(results, count, layouts) is Err,
    ensures
        declared_spans(results, more, layouts) == declared_spans(results, count, layouts),
    decreases more - count,
{
    if count < more {
        lemma_span_error_stays(results, count, (more - 1) as nat, layouts);
    }
}

/// The declared address span of a built block: see `declared_span`.
pub fn block_span(names: &BlockNames, layouts: &[LoadedLayout]) -> (r: Result<
    (String, u32, u32),
    MintError,
>)
    ensures
        r == declared_span(*names, layouts@),
{
    let layout = match find_layout(layouts, &names.file) {
        Some(l) => l,
        None => {
            return Err(MintError::Layout(LayoutError::FileError(names.file.clone())));
        },
    };
    let block = match block_by_name(&layout.config.blocks, names.name.as_str()) {
        Some(b) => b,
        None => {
            return Err(MintError::Layout(LayoutError::BlockNotFound(names.name.clone())));
        },
    };
    let start = match block.header.start_address.checked_add(layout.config.settings.virtual_offset) {
        Some(s) => s,
        None => {
            return Err(
                MintError::Layout(
                    LayoutError::InvalidBlockArgument(BlockArgumentFailure::StartOverflow),
                ),
            );
        },
    };
    let end = match start.checked_add(block.header.length) {
        Some(e) => e,
        None => {
            return Err(
                MintError::Layout(
                    LayoutError::InvalidBlockArgument(BlockArgumentFailure::EndOverflow),
                ),
            );
        },
    };
    Ok((names.name.clone(), start, end))
}

/// The contents of the finished blocks of a list of built blocks.
pub open spec fn built_ranges(results: Seq<BlockBuildResult>) -> Seq<DataRangeView> {
    Seq::new(results.len(), |i: int| results[i].data_range@)
}

/// True where `r` is what writing the built blocks into one file gives:
/// the error of the first block without a declared span; else every
/// overlap among the declared spans; else what the encoding of all blocks
/// gives, with the statistics of the blocks in their order.
pub open spec fn is_combined_output(
    r: Result<(BuildStats, String), MintError>,
    results: Seq<BlockBuildResult>,
    layouts: Seq<LoadedLayout>,
    record_width: usize,
    format: OutputFormat,
) -> bool {
    match declared_spans(results, results.len(), layouts) {
        Err(e) => r == Err::<(BuildStats, String), MintError>(e),
        Ok(spans) => if all_overlaps(spans).len() > 0 {
            match r {
                Ok(_) => false,
                Err(e) => reports_overlaps(e, all_overlaps(spans)),
            }
        } else {
            let outcome = hex_outcome(built_ranges(results), record_width, format);
            match r {
                Ok((stats, text)) => {
                    &&& outcome == HexOutcome::Text(text@)
                    &&& stats.wf()
                    &&& stats.block_stats@.len() == results.len()
                    &&& forall|i: int|
                        0 <= i < results.len() ==> #[trigger] stats.block_stats@[i]
                            == results[i].stat
                },
                Err(MintError::Output(e)) => outcome_of(Err(e), format) == Some(outcome),
                Err(_) => false,
            }
        },
    }
}

/// Copies of the finished blocks of built blocks, in their order.
fn ranges_of(results: &[BlockBuildResult]) -> (ranges: Vec<DataRange>)
    ensures
        range_views(ranges@) == built_ranges(results@),
{
    let mut ranges: Vec<DataRange> = Vec::new();
    let mut i: usize = 0;
    while i < results.len()
        invariant
            i <= results.len(),
            ranges@.len() == i,
            forall|j: int| 0 <= j < i ==> (#[trigger] ranges@[j])@ == results@[j].data_range@,
        decreases results.len() - i,
    {
        ranges.push(results[i].data_range.clone());
        i = i + 1;
    }
    proof {
        assert(range_views(ranges@) =~= built_ranges(results@));
    }
    ranges
}

/// The text of one file that holds all the built blocks, and their
/// statistics: see `is_combined_output`. Blocks whose declared spans
/// overlap are refused.
#[verifier::rlimit(40)]
pub fn output_combined_file(
    results: &[BlockBuildResult],
    layouts: &[LoadedLayout],
    record_width: usize,
    format: OutputFormat,
) -> (r: Result<(BuildStats, String), MintError>)
    ensures
        is_combined_output(r, results@, layouts@, record_width, format),
{
    let mut block_ranges: Vec<(String, u32, u32)> = Vec::new();
    let mut i: usize = 0;
    while i < results.len()
        invariant
            i <= results.len(),
            declared_spans(results@, i as nat, layouts@) == Ok::<
                Seq<(String, u32, u32)>,
                MintError,
            >(block_ranges@),
        decreases results.len() - i,
    {
        match block_span(&results[i].block_names, layouts) {
            Ok(span) => {
                block_ranges.push(span);
            },
            Err(e) => {
                proof {
                    lemma_span_error_stays(results@, (i + 1) as nat, results@.len(), layouts@);
                }
                return Err(e);
            },
        }
        i = i + 1;
    }
    match check_overlaps(block_ranges.as_slice()) {
        Ok(()) => {},
        Err(e) => {
            return Err(e);
        },
    }
    let stats = collect_stats(results);
    let ranges = ranges_of(results);
    match emit_hex(ranges.as_slice(), record_width, format) {
        Ok(text) => Ok((stats, text)),
        Err(e) => Err(MintError::Output(e)),
    }
}

/// The text of the file of one built block.
pub fn block_file_text(result: &BlockBuildResult, record_width: usize, format: OutputFormat) -> (r:
    Result<String, MintError>)
    ensures
        match r {
            Ok(text) => hex_outcome(seq![result.data_range@], record_width, format)
                == HexOutcome::Text(text@),
            Err(MintError::Output(e)) => outcome_of(Err(e), format) == Some(
                hex_outcome(seq![result.data_range@], record_width, format),
            ),
            Err(_) => false,
        },
{
    let mut ranges: Vec<DataRange> = Vec::new();
    ranges.push(result.data_range.clone());
    proof {
        assert(range_views(ranges@) =~= seq![result.data_range@]);
    }
    match emit_hex(ranges.as_slice(), record_width, format) {
        Ok(text) => Ok(text),
        Err(e) => Err(MintError::Output(e)),
    }
}

/// The texts of the files of the built blocks, one file for each block,
/// each with the block's name, and the statistics of the blocks. The first
/// block that cannot be encoded fails the whole.
#[verifier::rlimit(40)]
pub fn output_separate_blocks(results: &[BlockBuildResult], record_width: usize, format: OutputFormat) -> (r:
    Result<(BuildStats, Vec<(String, String)>), MintError>)
    ensures
        match r {
            Ok((stats, files)) => {
                &&& stats.wf()
                &&& stats.block_stats@.len() == results@.len()
                &&& files@.len() == results@.len()
                &&& forall|i: int|
                    0 <= i < results@.len() ==> {
                        &&& #[trigger] stats.block_stats@[i] == results@[i].stat
                        &&& files@[i].0 == results@[i].block_names.name
                        &&& hex_outcome(seq![results@[i].data_range@], record_width, format)
                            == HexOutcome::Text(files@[i].1@)
                    }
            },
            Err(MintError::Output(e)) => exists|i: int|
                0 <= i < results@.len() && outcome_of(Err(e), format) == Some(
                    #[trigger] hex_outcome(seq![results@[i].data_range@], record_width, format),
                ) && forall|j: int|
                    0 <= j < i ==> (#[trigger] hex_outcome(
                        seq![results@[j].data_range@],
                        record_width,
                        format,
                    )) is Text,
            Err(_) => false,
        },
{
    let mut files: Vec<(String, String)> = Vec::new();
    let mut i: usize = 0;
    while i < results.len()
        invariant
            i <= results.len(),
            files@.len() == i,
            forall|j: int|
                0 <= j < i ==> (#[trigger] files@[j]).0 == results@[j].block_names.name
                    && hex_outcome(seq![results@[j].data_range@], record_width, format)
                    == HexOutcome::Text(files@[j].1@),
        decreases results.len() - i,
    {
        match block_file_text(&results[i], record_width, format) {
            Ok(text) => {
                files.push((results[i].block_names.name.clone(), text));
            },
            Err(e) => {
                proof {
                    assert forall|j: int| 0 <= j < i implies (#[trigger] hex_outcome(
                        seq![results@[j].data_range@],
                        record_width,
                        format,
                    )) is Text by {
                        assert(files@[j].0 == results@[j].block_names.name);
                    }
                }
                return Err(e);
            },
        }
        i = i + 1;
    }
    let stats = collect_stats(results);
    Ok((stats, files))
}

/// The captured values of the first `count` built blocks: for every block
/// that captured values, its name with its values, in the order of the
/// blocks.
pub open spec fn captured_values(results: Seq<BlockBuildResult>, count: nat) -> Seq<
    (Seq<char>, ExportModel),
>
    decreases count,
{
    if count == 0 || count > results.len() {
        Seq::empty()
    } else {
        let before = captured_values(results, (count - 1) as nat);
        match results[count - 1].values {
            Some(values) => before.push((results[count - 1].block_names.name@, values@)),
            None => before,
        }
    }
}

/// The report of the values that the built blocks resolved: one group that
/// holds, under each block's name, the values of that block.
pub fn collect_values(results: &[BlockBuildResult]) -> (report: ExportValue)
    ensures
        report@ == ExportModel::Group(captured_values(results@, results@.len())),
{
    let mut entries: Vec<(String, ExportValue)> = Vec::new();
    let mut i: usize = 0;
    proof {
        assert(crate::layout::used_values::group_model(entries@) =~= Seq::empty());
    }
    while i < results.len()
        invariant
            i <= results.len(),
            crate::layout::used_values::group_model(entries@) == captured_values(
                results@,
                i as nat,
            ),
        decreases results.len() - i,
    {
        let ghost before = crate::layout::used_values::group_model(entries@);
        match &results[i].values {
            Some(values) => {
                let copy = values.duplicate();
                entries.push((results[i].block_names.name.clone(), copy));
                proof {
                    assert(crate::layout::used_values::group_model(entries@) =~= before.push(
                        (results@[i as int].block_names.name@, values@),
                    ));
                }
            },
            None => {},
        }
        i = i + 1;
    }
    proof {
        crate::layout::used_values::lemma_view_of_group(entries);
    }
    ExportValue::Group(entries)
}

} // verus!
