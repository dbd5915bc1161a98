//! Blocks of high entropy.
use vstd::prelude::*;
use vstd::string::*;
use crate::scanner::{findings_view, Finding, FindingModel};

verus! {

broadcast use crate::slices::slice_len_bound;

/// The size of the blocks that entropy is measured in, unless another is given.
pub const DEFAULT_WINDOW: usize = 4096;

/// A block of data and whether its entropy is high.
#[derive(Clone, Copy, Debug, PartialEq, Eq, Structural)]
pub struct EntropyBlock {
    pub offset: usize,
    pub size: usize,
    pub high: bool,
}

/// The blocks of `len` bytes from `offset` on, as offset and size: each `window`
/// bytes long, the last one maybe shorter.
pub open spec fn blocks_from(offset: int, len: int, window: int) -> Seq<(int, int)>
    decreases len - offset,
{
    if window <= 0 || offset >= len {
        Seq::empty()
    } else if len - offset <= window {
        seq![(offset, len - offset)]
    } else {
        seq![(offset, window)] + blocks_from(offset + window, len, window)
    }
}

/// The contents of a list of ranges.
pub open spec fn ranges_of(ranges: Seq<(usize, usize)>) -> Seq<(int, int)> {
    ranges.map_values(|r: (usize, usize)| (r.0 as int, r.1 as int))
}

/// Divides `len` bytes into blocks of `window` bytes; none if either is zero.
pub fn block_ranges(len: usize, window: usize) -> (r: Vec<(usize, usize)>)
    ensures
        ranges_of(r@) == blocks_from(0, len as int, window as int),
{
    let mut out: Vec<(usize, usize)> = Vec::new();
    assert(ranges_of(out@) == Seq::<(int, int)>::empty());
    if window == 0 {
        return out;
    }
    let ghost all = blocks_from(0, len as int, window as int);
    let mut offset: usize = 0;
    assert(ranges_of(out@) + all == all);
    while offset < len
        invariant
            0 < window,
            offset <= len,
            all == ranges_of(out@) + blocks_from(offset as int, len as int, window as int),
        decreases len - offset,
    {
        let size = if len - offset <= window {
            len - offset
        } else {
            window
        };
        let ghost before = ranges_of(out@);
        let ghost block = (offset as int, size as int);
        out.push((offset, size));
        proof {
            let rest = blocks_from(offset + size, len as int, window as int);
            assert(ranges_of(out@) == before.push(block));
            assert(seq![block] + rest =~= blocks_from(offset as int, len as int, window as int));
            assert(before + (seq![block] + rest) == before.push(block) + rest);
        }
        offset = offset + size;
    }
    proof {
        let done = ranges_of(out@);
        assert(done + Seq::<(int, int)>::empty() == done);
    }
    out
}

/// The blocks of `len` bytes follow each other without gap from `offset` to the
/// end, and none is empty.
proof fn lemma_blocks_cover(offset: int, len: int, window: int)
    requires
        0 <= offset <= len,
        window > 0,
    ensures
        ({
            let blocks = blocks_from(offset, len, window);
            &&& blocks.len() == 0 <==> offset == len
            &&& blocks.len() > 0 ==> blocks[0].0 == offset && blocks.last().0 + blocks.last().1 == len
            &&& forall|i: int| 0 <= i < blocks.len() ==> 0 < (#[trigger] blocks[i]).1 <= window
            &&& forall|i: int, j: int|
                0 <= i && j == i + 1 && j < blocks.len() ==> (#[trigger] blocks[j]).0 == (
                #[trigger] blocks[i]).0 + blocks[i].1
        }),
    decreases len - offset,
{
    let blocks = blocks_from(offset, len, window);
    if len - offset > window {
        lemma_blocks_cover(offset + window, len, window);
        let rest = blocks_from(offset + window, len, window);
        assert(blocks == seq![(offset, window)] + rest);
        assert(blocks.last() == rest.last());
        assert forall|i: int| 0 <= i < blocks.len() implies 0 < (#[trigger] blocks[i]).1 <= window by {
            if i > 0 {
                assert(rest[i - 1] == blocks[i]);
            }
        }
        assert forall|i: int, j: int| 0 <= i && j == i + 1 && j < blocks.len() implies (
        #[trigger] blocks[j]).0 == (#[trigger] blocks[i]).0 + blocks[i].1 by {
            assert(rest[j - 1] == blocks[j]);
            if i > 0 {
                assert(rest[i - 1] == blocks[i]);
            }
        }
    }
}

/// The blocks of `len` bytes cover them from the first to the last without gap or
/// overlap, and none is longer than the window.
pub proof fn law_blocks_cover(len: int, window: int)
    requires
        0 < len,
        0 < window,
    ensures
        ({
            let blocks = blocks_from(0, len, window);
            &&& blocks.len() > 0
            &&& blocks[0].0 == 0 && blocks.last().0 + blocks.last().1 == len
            &&& forall|i: int| 0 <= i < blocks.len() ==> 0 < (#[trigger] blocks[i]).1 <= window
            &&& forall|i: int, j: int|
                0 <= i && j == i + 1 && j < blocks.len() ==> (#[trigger] blocks[j]).0 == (
                #[trigger] blocks[i]).0 + blocks[i].1
        }),
{
    lemma_blocks_cover(0, len, window);
}

/// Each block begins at a multiple of the window and is a whole window long, but for
/// the last, which has what is left.
pub proof fn law_blocks_are_windows(len: int, window: int, i: int)
    requires
        0 < window,
        0 <= i < blocks_from(0, len, window).len(),
    ensures
        ({
            let block = blocks_from(0, len, window)[i];
            &&& block.0 == i * window
            &&& block.1 == if len - i * window < window {
                len - i * window
            } else {
                window
            }
            &&& block.1 > 0
        }),
        blocks_from(0, len, window).len() == (len + window - 1) / window,
{
    lemma_blocks_are_windows(0, len, window, i);
    assert(0 + i * window == i * window);
}

proof fn lemma_blocks_are_windows(offset: int, len: int, window: int, i: int)
    requires
        0 < window,
        0 <= i < blocks_from(offset, len, window).len(),
    ensures
        ({
            let block = blocks_from(offset, len, window)[i];
            &&& block.0 == offset + i * window
            &&& block.1 == if len - offset - i * window < window {
                len - offset - i * window
            } else {
                window
            }
            &&& block.1 > 0
        }),
        blocks_from(offset, len, window).len() == (len - offset + window - 1) / window,
    decreases len - offset,
{
    let blocks = blocks_from(offset, len, window);
    if len - offset <= window {
        assert(i == 0);
        assert((len - offset + window - 1) / window == 1) by (nonlinear_arith)
            requires
                0 < len - offset <= window,
        ;
        assert(0 * window == 0);
    } else {
        let rest = blocks_from(offset + window, len, window);
        assert(rest.len() > 0);
        lemma_blocks_are_windows(
            offset + window,
            len,
            window,
            if i > 0 {
                i - 1
            } else {
                0
            },
        );
        if i > 0 {
            assert(blocks[i] == rest[i - 1]);
            assert((i - 1) * window + window == i * window) by (nonlinear_arith);
        } else {
            assert(0 * window == 0);
        }
        let n = len - offset - 1;
        assert((n + window) / window == n / window + 1) by (nonlinear_arith)
            requires
                window > 0,
        ;
    }
}

/// How often the byte `b` stands in `s`.
pub open spec fn count_of_byte(s: Seq<u8>, b: u8) -> int
    decreases s.len(),
{
    if s.len() == 0 {
        0
    } else {
        count_of_byte(s.drop_last(), b) + if s.last() == b {
            1int
        } else {
            0int
        }
    }
}

/// How often each byte value stands in `data`.
pub fn byte_counts(data: &[u8]) -> (r: Vec<u64>)
    ensures
        r@.len() == 256,
        forall|b: u8| (#[trigger] r@[b as int]) == count_of_byte(data@, b),
        forall|b: u8| (#[trigger] r@[b as int]) == data@.to_multiset().count(b),
        sum_of(r@, 256) == data@.len(),
{
    let mut counts: Vec<u64> = vec![0u64; 256];
    let mut i: usize = 0;
    assert(data@.take(0) == Seq::<u8>::empty());
    while i < data.len()
        invariant
            i <= data@.len(),
            counts@.len() == 256,
            forall|b: u8|
                (#[trigger] counts@[b as int]) == count_of_byte(data@.take(i as int), b),
            forall|b: u8| (#[trigger] counts@[b as int]) <= i,
        decreases data@.len() - i,
    {
        let b = data[i];
        proof {
            assert(data@.take(i + 1).drop_last() == data@.take(i as int));
            assert(data@.take(i + 1).last() == b);
            assert(counts@[b as int] <= i);
        }
        let n = counts[b as usize];
        counts.set(b as usize, n + 1);
        i = i + 1;
    }
    proof {
        assert(data@.take(i as int) == data@);
        assert forall|b: u8| (#[trigger] counts@[b as int]) == data@.to_multiset().count(b) by {
            law_count_is_multiplicity(data@, b);
        }
        lemma_sum_of_counts(data@, counts@, 256);
    }
    counts
}

/// The sum of the first `n` counts.
pub open spec fn sum_of(counts: Seq<u64>, n: int) -> int
    decreases n,
{
    if n <= 0 {
        0
    } else {
        sum_of(counts, n - 1) + counts[n - 1]
    }
}

/// How many bytes of `s` are below `n`.
spec fn below(s: Seq<u8>, n: int) -> int
    decreases s.len(),
{
    if s.len() == 0 {
        0
    } else {
        below(s.drop_last(), n) + if s.last() < n {
            1int
        } else {
            0int
        }
    }
}

proof fn lemma_below_next(s: Seq<u8>, b: u8)
    ensures
        below(s, b + 1) == below(s, b as int) + count_of_byte(s, b),
    decreases s.len(),
{
    if s.len() > 0 {
        lemma_below_next(s.drop_last(), b);
    }
}

proof fn lemma_below_bounds(s: Seq<u8>)
    ensures
        below(s, 0) == 0,
        below(s, 256) == s.len(),
    decreases s.len(),
{
    if s.len() > 0 {
        lemma_below_bounds(s.drop_last());
    }
}

proof fn lemma_sum_of_counts(s: Seq<u8>, counts: Seq<u64>, n: int)
    requires
        0 <= n <= 256,
        counts.len() == 256,
        forall|b: u8| (#[trigger] counts[b as int]) == count_of_byte(s, b),
    ensures
        sum_of(counts, n) == below(s, n),
        n == 256 ==> sum_of(counts, n) == s.len(),
    decreases n,
{
    lemma_below_bounds(s);
    if n > 0 {
        lemma_sum_of_counts(s, counts, n - 1);
        let b = (n - 1) as u8;
        lemma_below_next(s, b);
        assert(counts[b as int] == count_of_byte(s, b));
    }
}

/// The count of a byte is how often it stands in the data, wherever it stands.
pub proof fn law_count_is_multiplicity(s: Seq<u8>, b: u8)
    ensures
        count_of_byte(s, b) == s.to_multiset().count(b),
    decreases s.len(),
{
    s.to_multiset_ensures();
    if s.len() == 0 {
        assert(s.to_multiset().len() == 0);
    } else {
        let rest = s.drop_last();
        rest.to_multiset_ensures();
        law_count_is_multiplicity(rest, b);
        assert(s == rest.push(s.last()));
    }
}

/// Two pieces of data together hold each byte as often as both of them.
pub proof fn law_counts_add_up(a: Seq<u8>, c: Seq<u8>, b: u8)
    ensures
        count_of_byte(a + c, b) == count_of_byte(a, b) + count_of_byte(c, b),
    decreases c.len(),
{
    if c.len() == 0 {
        assert(a + c == a);
    } else {
        law_counts_add_up(a, c.drop_last(), b);
        assert((a + c).drop_last() == a + c.drop_last());
        assert((a + c).last() == c.last());
    }
}

/// The regions that the blocks from index `i` on form, each from its first to
/// its last byte, when `current` is open: high blocks that follow each other
/// make one region.
pub open spec fn regions_from(blocks: Seq<EntropyBlock>, i: int, current: Option<(int, int)>) -> Seq<
    (int, int),
>
    decreases blocks.len() - i,
{
    if i < 0 || i >= blocks.len() {
        match current {
            Some(region) => seq![region],
            None => Seq::empty(),
        }
    } else if blocks[i].high {
        let end = blocks[i].offset + blocks[i].size - 1;
        match current {
            Some(region) => regions_from(blocks, i + 1, Some((region.0, end))),
            None => regions_from(blocks, i + 1, Some((blocks[i].offset as int, end))),
        }
    } else {
        match current {
            Some(region) => seq![region] + regions_from(blocks, i + 1, None),
            None => regions_from(blocks, i + 1, None),
        }
    }
}

/// The finding for a region.
pub open spec fn region_model(region: (int, int)) -> FindingModel {
    FindingModel {
        format: "high_entropy_region"@,
        description: "Ділянка з високою ентропією (можливо, стиснені/зашифровані дані)"@,
        offset_start: region.0,
        offset_end: region.1,
        size: region.1 - region.0 + 1,
        confidence: 50,
        name: None,
    }
}

/// The findings for the regions of high entropy.
pub open spec fn region_findings(blocks: Seq<EntropyBlock>) -> Seq<FindingModel> {
    regions_from(blocks, 0, None).map_values(|region: (int, int)| region_model(region))
}

/// The blocks follow each other without gap, none is empty, and they end at an
/// offset that can be addressed.
pub open spec fn contiguous(blocks: Seq<EntropyBlock>) -> bool {
    &&& forall|i: int|
        0 <= i < blocks.len() ==> (#[trigger] blocks[i]).size > 0 && blocks[i].offset + blocks[i].size
            <= usize::MAX
    &&& forall|i: int, j: int|
        0 <= i && j == i + 1 && j < blocks.len() ==> (#[trigger] blocks[j]).offset == (
        #[trigger] blocks[i]).offset + blocks[i].size
}

/// No block is empty, each ends at an offset that can be addressed, and their
/// offsets do not go down.
pub open spec fn ordered(blocks: Seq<EntropyBlock>) -> bool {
    &&& forall|i: int|
        0 <= i < blocks.len() ==> (#[trigger] blocks[i]).size > 0 && blocks[i].offset + blocks[i].size
            <= usize::MAX
    &&& forall|i: int, j: int|
        0 <= i && j == i + 1 && j < blocks.len() ==> (#[trigger] blocks[i]).offset <= (
        #[trigger] blocks[j]).offset
}

fn region_finding(start: usize, end: usize) -> (r: Finding)
    requires
        start <= end < usize::MAX,
    ensures
        r@ == region_model((start as int, end as int)),
{
    Finding {
        format: "high_entropy_region".to_owned(),
        description:
            "Ділянка з високою ентропією (можливо, стиснені/зашифровані дані)".to_owned(),
        offset_start: start,
        offset_end: end,
        size: end - start + 1,
        confidence: 50,
        name: None,
    }
}

/// Whether the blocks are in order.
pub fn is_ordered(blocks: &Vec<EntropyBlock>) -> (r: bool)
    ensures
        r == ordered(blocks@),
{
    let mut i: usize = 0;
    while i < blocks.len()
        invariant
            i <= blocks@.len(),
            forall|k: int|
                0 <= k < i ==> (#[trigger] blocks@[k]).size > 0 && blocks@[k].offset
                    + blocks@[k].size <= usize::MAX,
            forall|k: int, j: int|
                0 <= k && j == k + 1 && j < i ==> (#[trigger] blocks@[k]).offset <= (
                #[trigger] blocks@[j]).offset,
        decreases blocks@.len() - i,
    {
        if blocks[i].size == 0 || blocks[i].size > usize::MAX - blocks[i].offset {
            assert(!(blocks@[i as int].size > 0 && blocks@[i as int].offset + blocks@[i as int].size
                <= usize::MAX));
            return false;
        }
        if i > 0 && blocks[i].offset < blocks[i - 1].offset {
            assert(blocks@[i as int].offset < blocks@[i - 1].offset);
            return false;
        }
        i = i + 1;
    }
    true
}

/// The regions of high entropy, as findings.
pub fn findings(blocks: &Vec<EntropyBlock>) -> (r: Vec<Finding>)
    requires
        ordered(blocks@),
    ensures
        findings_view(r@) == region_findings(blocks@),
{
    let mut out: Vec<Finding> = Vec::new();
    let mut current: Option<(usize, usize)> = None;
    let ghost all = region_findings(blocks@);
    let mut i: usize = 0;
    proof {
        assert(findings_view(out@) + all == all);
    }
    while i < blocks.len()
        invariant
            i <= blocks@.len(),
            ordered(blocks@),
            current matches Some((start, end)) ==> {
                &&& i > 0
                &&& start <= end < usize::MAX
                &&& start <= blocks@[i - 1].offset
            },
            all == findings_view(out@) + regions_from(blocks@, i as int, open_region(current)).map_values(
                |region: (int, int)| region_model(region),
            ),
        decreases blocks@.len() - i,
    {
        let block = blocks[i];
        assert(blocks@[i as int].size > 0);
        assert(i > 0 ==> blocks@[i - 1].offset <= blocks@[i as int].offset);
        if block.high {
            let end = block.offset + block.size - 1;
            current = match current {
                Some((start, _)) => Some((start, end)),
                None => Some((block.offset, end)),
            };
        } else {
            if let Some((start, end)) = current {
                let ghost before = findings_view(out@);
                let ghost model = region_model((start as int, end as int));
                let found = region_finding(start, end);
                out.push(found);
                proof {
                    let rest = regions_from(blocks@, i + 1, None);
                    let regions = seq![(start as int, end as int)] + rest;
                    let render = |region: (int, int)| region_model(region);
                    assert(findings_view(out@) == before.push(model));
                    assert(regions.map_values(render) == seq![model] + rest.map_values(render));
                    assert(before + (seq![model] + rest.map_values(render)) == before.push(model)
                        + rest.map_values(render));
                }
            }
            current = None;
        }
        i = i + 1;
    }
    let ghost before = findings_view(out@);
    if let Some((start, end)) = current {
        let found = region_finding(start, end);
        out.push(found);
        assert(findings_view(out@) == before.push(region_model((start as int, end as int))));
    }
    proof {
        let render = |region: (int, int)| region_model(region);
        let last = regions_from(blocks@, i as int, open_region(current));
        assert(before + last.map_values(render) == findings_view(out@));
    }
    out
}

/// A region that is still open.
pub open spec fn open_region(current: Option<(usize, usize)>) -> Option<(int, int)> {
    match current {
        Some((start, end)) => Some((start as int, end as int)),
        None => None,
    }
}

/// The offset lies in a block of high entropy.
pub open spec fn in_high_block(blocks: Seq<EntropyBlock>, from: int, at: int) -> bool {
    exists|i: int|
        from <= i < blocks.len() && (#[trigger] blocks[i]).high && blocks[i].offset <= at
            < blocks[i].offset + blocks[i].size
}

/// The offset lies in one of the regions.
pub open spec fn in_region(regions: Seq<(int, int)>, at: int) -> bool {
    exists|k: int| 0 <= k < regions.len() && (#[trigger] regions[k]).0 <= at <= regions[k].1
}

/// What the regions from block `i` on cover: the open one, and the high blocks.
proof fn lemma_regions_cover(blocks: Seq<EntropyBlock>, i: int, current: Option<(int, int)>, at: int)
    requires
        contiguous(blocks),
        0 <= i <= blocks.len(),
        current matches Some((start, end)) ==> i > 0 && start <= end && end + 1 == blocks[i - 1].offset
            + blocks[i - 1].size,
    ensures
        in_region(regions_from(blocks, i, current), at) <==> (in_high_block(blocks, i, at) || (
        current matches Some((start, end)) && start <= at <= end)),
    decreases blocks.len() - i,
{
    let regions = regions_from(blocks, i, current);
    if i == blocks.len() {
        if let Some(region) = current {
            assert(regions[0] == region);
        }
    } else {
        assert(blocks[i].size > 0);
        if i > 0 {
            assert(blocks[i].offset == blocks[i - 1].offset + blocks[i - 1].size);
        }
        assert(in_high_block(blocks, i, at) <==> (in_high_block(blocks, i + 1, at) || (blocks[i].high
            && blocks[i].offset <= at < blocks[i].offset + blocks[i].size)));
        let end = blocks[i].offset + blocks[i].size - 1;
        if blocks[i].high {
            match current {
                Some(region) => {
                    lemma_regions_cover(blocks, i + 1, Some((region.0, end)), at);
                },
                None => {
                    lemma_regions_cover(blocks, i + 1, Some((blocks[i].offset as int, end)), at);
                },
            }
        } else {
            lemma_regions_cover(blocks, i + 1, None, at);
            if let Some(region) = current {
                let rest = regions_from(blocks, i + 1, None);
                assert(regions == seq![region] + rest);
                if in_region(regions, at) {
                    let k = choose|k: int|
                        0 <= k < regions.len() && (#[trigger] regions[k]).0 <= at <= regions[k].1;
                    if k > 0 {
                        assert(rest[k - 1] == regions[k]);
                        assert(in_region(rest, at));
                    }
                }
                if in_region(rest, at) {
                    let k = choose|k: int|
                        0 <= k < rest.len() && (#[trigger] rest[k]).0 <= at <= rest[k].1;
                    assert(regions[k + 1] == rest[k]);
                }
                if region.0 <= at <= region.1 {
                    assert(regions[0] == region);
                }
            }
        }
    }
}

/// The regions cover the blocks of high entropy, and nothing else.
pub proof fn law_regions_cover_high_blocks(blocks: Seq<EntropyBlock>, at: int)
    requires
        contiguous(blocks),
    ensures
        in_region(regions_from(blocks, 0, None), at) <==> in_high_block(blocks, 0, at),
{
    lemma_regions_cover(blocks, 0, None, at);
}

/// The regions from block `i` on come in order, with a gap between each two, and
/// the first begins with the open one or behind block `i`.
proof fn lemma_regions_apart(blocks: Seq<EntropyBlock>, i: int, current: Option<(int, int)>)
    requires
        contiguous(blocks),
        0 <= i <= blocks.len(),
        current matches Some((start, end)) ==> i > 0 && start <= end && end + 1 == blocks[i - 1].offset
            + blocks[i - 1].size,
    ensures
        ({
            let regions = regions_from(blocks, i, current);
            &&& forall|k: int| 0 <= k < regions.len() ==> (#[trigger] regions[k]).0 <= regions[k].1
            &&& forall|k: int, m: int|
                0 <= k < m < regions.len() ==> (#[trigger] regions[k]).1 + 1 < (
                #[trigger] regions[m]).0
            &&& regions.len() > 0 ==> regions[0].0 == match current {
                Some(region) => region.0,
                None => regions[0].0,
            }
            &&& current is None && regions.len() > 0 && i < blocks.len() ==> regions[0].0
                >= blocks[i].offset
            &&& current is None && i == blocks.len() ==> regions.len() == 0
        }),
    decreases blocks.len() - i,
{
    let regions = regions_from(blocks, i, current);
    if i < blocks.len() {
        assert(blocks[i].size > 0);
        if i > 0 {
            assert(blocks[i].offset == blocks[i - 1].offset + blocks[i - 1].size);
        }
        if i + 1 < blocks.len() {
            assert(blocks[i + 1].offset == blocks[i].offset + blocks[i].size);
        }
        let end = blocks[i].offset + blocks[i].size - 1;
        if blocks[i].high {
            match current {
                Some(region) => {
                    lemma_regions_apart(blocks, i + 1, Some((region.0, end)));
                },
                None => {
                    lemma_regions_apart(blocks, i + 1, Some((blocks[i].offset as int, end)));
                },
            }
        } else {
            lemma_regions_apart(blocks, i + 1, None);
            if let Some(region) = current {
                let rest = regions_from(blocks, i + 1, None);
                assert(regions == seq![region] + rest);
                assert forall|k: int| 0 <= k < regions.len() implies (#[trigger] regions[k]).0
                    <= regions[k].1 by {
                    if k > 0 {
                        assert(rest[k - 1] == regions[k]);
                    }
                }
                assert forall|k: int, m: int| 0 <= k < m < regions.len() implies (
                #[trigger] regions[k]).1 + 1 < (#[trigger] regions[m]).0 by {
                    assert(rest[m - 1] == regions[m]);
                    if k > 0 {
                        assert(rest[k - 1] == regions[k]);
                    } else if m > 1 {
                        assert(rest[0].1 + 1 < rest[m - 1].0);
                        assert(rest[0].0 <= rest[0].1);
                    }
                }
            }
        }
    }
}

/// The regions come in ascending order, and at least one byte of low entropy lies
/// between each two.
pub proof fn law_regions_apart(blocks: Seq<EntropyBlock>, k: int, m: int)
    requires
        contiguous(blocks),
        0 <= k < m < regions_from(blocks, 0, None).len(),
    ensures
        regions_from(blocks, 0, None)[k].1 + 1 < regions_from(blocks, 0, None)[m].0,
{
    lemma_regions_apart(blocks, 0, None);
}

/// Two lists of findings joined in the order of their starts; where starts are
/// equal, those of `a` come first.
pub open spec fn merged(a: Seq<FindingModel>, b: Seq<FindingModel>) -> Seq<FindingModel>
    decreases a.len() + b.len(),
{
    if a.len() == 0 {
        b
    } else if b.len() == 0 {
        a
    } else if a[0].offset_start <= b[0].offset_start {
        seq![a[0]] + merged(a.drop_first(), b)
    } else {
        seq![b[0]] + merged(a, b.drop_first())
    }
}

/// The findings are in the order of their starts.
pub open spec fn by_start(list: Seq<FindingModel>) -> bool {
    forall|i: int, j: int|
        0 <= i < j < list.len() ==> (#[trigger] list[i]).offset_start <= (
        #[trigger] list[j]).offset_start
}

/// Joins two lists of findings in the order of their starts.
pub fn merge_findings(a: &Vec<Finding>, b: &Vec<Finding>) -> (r: Vec<Finding>)
    ensures
        findings_view(r@) == merged(findings_view(a@), findings_view(b@)),
{
    let ghost x = findings_view(a@);
    let ghost y = findings_view(b@);
    let mut out: Vec<Finding> = Vec::new();
    let mut i: usize = 0;
    let mut j: usize = 0;
    proof {
        assert(x.skip(0) == x);
        assert(y.skip(0) == y);
        assert(findings_view(out@) + merged(x, y) == merged(x, y));
    }
    while i < a.len() || j < b.len()
        invariant
            i <= a@.len() == x.len(),
            j <= b@.len() == y.len(),
            x == findings_view(a@),
            y == findings_view(b@),
            merged(x, y) == findings_view(out@) + merged(x.skip(i as int), y.skip(j as int)),
        decreases a@.len() - i + b@.len() - j,
    {
        let ghost before = findings_view(out@);
        let from_a = i < a.len() && (j >= b.len() || a[i].offset_start <= b[j].offset_start);
        proof {
            if i < a@.len() {
                assert(x.skip(i as int)[0] == a@[i as int]@);
                assert(x.skip(i as int).drop_first() == x.skip(i + 1));
            }
            if j < b@.len() {
                assert(y.skip(j as int)[0] == b@[j as int]@);
                assert(y.skip(j as int).drop_first() == y.skip(j + 1));
            }
        }
        let next = if from_a {
            a[i].copy()
        } else {
            b[j].copy()
        };
        let ghost model = next@;
        out.push(next);
        proof {
            assert(findings_view(out@) == before.push(model));
            let left = x.skip(i as int);
            let right = y.skip(j as int);
            if from_a {
                let rest = merged(x.skip(i + 1), right);
                assert(merged(left, right) == seq![model] + rest) by {
                    if right.len() == 0 {
                        assert(left == seq![model] + left.drop_first());
                        if left.drop_first().len() == 0 {
                            assert(rest == right);
                            assert(left == seq![model] + rest);
                        }
                    }
                }
                assert(before + (seq![model] + rest) == before.push(model) + rest);
            } else {
                let rest = merged(left, y.skip(j + 1));
                assert(merged(left, right) == seq![model] + rest) by {
                    if left.len() == 0 {
                        assert(right == seq![model] + right.drop_first());
                    }
                }
                assert(before + (seq![model] + rest) == before.push(model) + rest);
            }
        }
        if from_a {
            i = i + 1;
        } else {
            j = j + 1;
        }
    }
    proof {
        let done = findings_view(out@);
        assert(x.skip(i as int).len() == 0);
        assert(y.skip(j as int) == Seq::<FindingModel>::empty());
        assert(done + y.skip(j as int) == done);
    }
    out
}

proof fn lemma_merged_first(a: Seq<FindingModel>, b: Seq<FindingModel>, start: int)
    requires
        a.len() > 0 ==> start <= a[0].offset_start,
        b.len() > 0 ==> start <= b[0].offset_start,
        by_start(a),
        by_start(b),
    ensures
        by_start(merged(a, b)),
        forall|i: int| 0 <= i < merged(a, b).len() ==> start <= (#[trigger] merged(a, b)[i]).offset_start,
    decreases a.len() + b.len(),
{
    if a.len() > 0 && b.len() > 0 {
        let list = merged(a, b);
        if a[0].offset_start <= b[0].offset_start {
            let rest = merged(a.drop_first(), b);
            if a.len() > 1 {
                assert(a[0].offset_start <= a[1].offset_start);
            }
            assert(by_start(a.drop_first())) by {
                assert forall|i: int, j: int| 0 <= i < j < a.drop_first().len() implies (
                #[trigger] a.drop_first()[i]).offset_start <= (
                #[trigger] a.drop_first()[j]).offset_start by {
                    assert(a[i + 1].offset_start <= a[j + 1].offset_start);
                }
            }
            lemma_merged_first(a.drop_first(), b, a[0].offset_start);
            lemma_cons_by_start(a[0], rest);
            assert forall|i: int| 0 <= i < list.len() implies start <= (
            #[trigger] list[i]).offset_start by {
                if i > 0 {
                    assert(list[i] == rest[i - 1]);
                }
            }
        } else {
            let rest = merged(a, b.drop_first());
            if b.len() > 1 {
                assert(b[0].offset_start <= b[1].offset_start);
            }
            assert(by_start(b.drop_first())) by {
                assert forall|i: int, j: int| 0 <= i < j < b.drop_first().len() implies (
                #[trigger] b.drop_first()[i]).offset_start <= (
                #[trigger] b.drop_first()[j]).offset_start by {
                    assert(b[i + 1].offset_start <= b[j + 1].offset_start);
                }
            }
            lemma_merged_first(a, b.drop_first(), b[0].offset_start);
            lemma_cons_by_start(b[0], rest);
            assert forall|i: int| 0 <= i < list.len() implies start <= (
            #[trigger] list[i]).offset_start by {
                if i > 0 {
                    assert(list[i] == rest[i - 1]);
                }
            }
        }
    } else {
        let list = merged(a, b);
        assert forall|i: int| 0 <= i < list.len() implies start <= (
        #[trigger] list[i]).offset_start by {
            if i > 0 {
                assert(list[0].offset_start <= list[i].offset_start);
            }
        }
    }
}

proof fn lemma_cons_by_start(f: FindingModel, rest: Seq<FindingModel>)
    requires
        by_start(rest),
        forall|i: int| 0 <= i < rest.len() ==> f.offset_start <= (#[trigger] rest[i]).offset_start,
    ensures
        by_start(seq![f] + rest),
{
    let list = seq![f] + rest;
    assert forall|i: int, j: int| 0 <= i < j < list.len() implies (
    #[trigger] list[i]).offset_start <= (#[trigger] list[j]).offset_start by {
        assert(list[j] == rest[j - 1]);
        if i > 0 {
            assert(list[i] == rest[i - 1]);
        }
    }
}

/// Two lists in the order of their starts give one list in that order.
pub proof fn law_merged_by_start(a: Seq<FindingModel>, b: Seq<FindingModel>)
    requires
        by_start(a),
        by_start(b),
    ensures
        by_start(merged(a, b)),
{
    let start = if a.len() == 0 {
        if b.len() == 0 {
            0
        } else {
            b[0].offset_start
        }
    } else if b.len() == 0 || a[0].offset_start <= b[0].offset_start {
        a[0].offset_start
    } else {
        b[0].offset_start
    };
    lemma_merged_first(a, b, start);
}

/// Joining two lists loses nothing and adds nothing.
pub proof fn law_merged_keeps_all(a: Seq<FindingModel>, b: Seq<FindingModel>)
    ensures
        merged(a, b).to_multiset() == a.to_multiset().add(b.to_multiset()),
    decreases a.len() + b.len(),
{
    broadcast use vstd::seq_lib::group_to_multiset_ensures;

    if a.len() == 0 {
        assert(a == Seq::<FindingModel>::empty());
        assert(merged(a, b).to_multiset() =~= a.to_multiset().add(b.to_multiset()));
    } else if b.len() == 0 {
        assert(b == Seq::<FindingModel>::empty());
        assert(merged(a, b).to_multiset() =~= a.to_multiset().add(b.to_multiset()));
    } else if a[0].offset_start <= b[0].offset_start {
        law_merged_keeps_all(a.drop_first(), b);
        assert(a == seq![a[0]] + a.drop_first());
        vstd::seq_lib::lemma_multiset_commutative(seq![a[0]], a.drop_first());
        vstd::seq_lib::lemma_multiset_commutative(seq![a[0]], merged(a.drop_first(), b));
        assert(merged(a, b).to_multiset() =~= a.to_multiset().add(b.to_multiset()));
    } else {
        law_merged_keeps_all(a, b.drop_first());
        assert(b == seq![b[0]] + b.drop_first());
        vstd::seq_lib::lemma_multiset_commutative(seq![b[0]], b.drop_first());
        vstd::seq_lib::lemma_multiset_commutative(seq![b[0]], merged(a, b.drop_first()));
        assert(merged(a, b).to_multiset() =~= a.to_multiset().add(b.to_multiset()));
    }
}

} // verus!
