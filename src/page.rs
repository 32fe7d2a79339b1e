//! The definition levels of one decompressed data page.

use vstd::prelude::*;
use crate::levels::{all_at_most, expected_levels, page_levels, LevelsError};
use crate::render::{digit_chars, decimal, flatten, level_tokens, levels_text};
use parquet2::page::{DataPage, DataPageHeader};

verus! {

/// A decompressed data page of parquet2.
#[verifier::external_type_specification]
#[verifier::external_body]
pub struct ExDataPage(parquet2::page::DataPage);

/// Relies on parquet2's `DataPage::num_values`: the number of values that the
/// page's header declares.
#[verifier::external_body]
fn value_count(page: &DataPage) -> usize {
    page.num_values()
}

/// Relies on the `max_def_level` field of parquet2's column `Descriptor`: the
/// maximum definition level of the page's column.
#[verifier::external_body]
fn max_def_level(page: &DataPage) -> i16 {
    page.descriptor.max_def_level
}

/// Relies on the `max_rep_level` field of parquet2's column `Descriptor`: the
/// maximum repetition level of the page's column.
#[verifier::external_body]
fn max_rep_level(page: &DataPage) -> i16 {
    page.descriptor.max_rep_level
}

/// Relies on parquet2's `DataPage::buffer`: the page's decompressed bytes.
#[verifier::external_body]
fn page_buffer(page: &DataPage) -> &[u8] {
    page.buffer()
}

/// Relies on parquet2's `DataPage::header`: for a page of the second header
/// version, the byte lengths of its repetition and of its definition levels.
#[verifier::external_body]
fn v2_level_lengths(page: &DataPage) -> Option<(i32, i32)> {
    match page.header() {
        DataPageHeader::V1(_) => None,
        DataPageHeader::V2(h) => Some((h.repetition_levels_byte_length, h.definition_levels_byte_length)),
    }
}

/// The definition-level bytes that parquet2's `split_buffer_v1` finds in a
/// page buffer; `None` where it reports an error.
pub uninterp spec fn v1_def_stream_of(buffer: Seq<u8>, has_rep: bool, has_def: bool) -> Option<
    Seq<u8>,
>;

/// Relies on parquet2's `page::split_buffer_v1`: the encoded definition levels
/// of a page of the first header version, after the length-prefixed
/// repetition levels, which it skips. It reads lengths with bounds checks.
#[verifier::external_body]
fn def_stream_v1(buffer: &[u8], has_rep: bool, has_def: bool) -> (r: Result<
    &[u8],
    parquet2::error::Error,
>)
    ensures
        r is Ok <==> v1_def_stream_of(buffer@, has_rep, has_def) is Some,
        r matches Ok(d) ==> v1_def_stream_of(buffer@, has_rep, has_def) == Some(d@),
{
    parquet2::page::split_buffer_v1(buffer, has_rep, has_def).map(|parts| parts.1)
}

/// Relies on parquet2's `page::split_buffer_v2`: the definition levels of a
/// page of the second header version are the `def_len` bytes after the
/// `rep_len` bytes of repetition levels. It slices without checks, and
/// returns `Ok` whenever it returns.
#[verifier::external_body]
fn def_stream_v2(buffer: &[u8], rep_len: usize, def_len: usize) -> (r: Result<
    &[u8],
    parquet2::error::Error,
>)
    requires
        rep_len + def_len <= buffer@.len(),
    ensures
        r is Ok,
        r matches Ok(d) ==> d@ == buffer@.subrange(rep_len as int, rep_len + def_len),
{
    parquet2::page::split_buffer_v2(buffer, rep_len, def_len).map(|parts| parts.1)
}

/// What a data page's header and column say of its levels.
#[derive(Debug, Clone, Copy)]
pub struct PageLayout {
    /// The number of values that the page declares.
    pub num_values: usize,
    /// The maximum definition level of the page's column.
    pub max_def: i16,
    /// The maximum repetition level of the page's column.
    pub max_rep: i16,
    /// For a page of the second header version, the byte lengths of its
    /// repetition and of its definition levels.
    pub v2_lengths: Option<(i32, i32)>,
}

/// The definition-level bytes of a page buffer with `layout`, where the
/// layout's lengths fit the buffer.
pub open spec fn def_stream_of(buffer: Seq<u8>, layout: PageLayout) -> Option<Seq<u8>> {
    match layout.v2_lengths {
        None => v1_def_stream_of(buffer, layout.max_rep > 0, layout.max_def > 0),
        Some((rep, def)) => if rep < 0 || def < 0 || rep + def > buffer.len() {
            None
        } else {
            Some(buffer.subrange(rep as int, rep + def))
        },
    }
}

/// The definition levels of a page with `layout` and decompressed bytes
/// `buffer`: none for a page without values or of a column without
/// definition levels, and otherwise those of its definition-level bytes.
pub open spec fn expected_buffer_levels(buffer: Seq<u8>, layout: PageLayout) -> Option<Seq<u32>> {
    if layout.num_values == 0 || layout.max_def <= 0 {
        Some(Seq::empty())
    } else {
        match def_stream_of(buffer, layout) {
            Some(d) => expected_levels(d, layout.max_def as u16, layout.num_values),
            None => None,
        }
    }
}

/// The definition levels of a page with `layout` and decompressed bytes
/// `buffer`. A page without values, or of a column without definition
/// levels, has none and its buffer is not read; otherwise the repetition
/// levels are skipped and the definition levels decoded.
pub fn buffer_levels(buffer: &[u8], layout: &PageLayout) -> (r: Result<Vec<u32>, LevelsError>)
    ensures
        r is Ok <==> expected_buffer_levels(buffer@, *layout) is Some,
        r matches Ok(v) ==> expected_buffer_levels(buffer@, *layout) == Some(v@),
        r matches Ok(v) ==> page_levels_wf(
            (PageLevels { num_values: layout.num_values, max_def: layout.max_def, levels: v }),
        ),
{
    if layout.num_values == 0 || layout.max_def <= 0 {
        let v = Vec::new();
        assert(v@ =~= Seq::<u32>::empty());
        return Ok(v);
    }
    let data = match layout.v2_lengths {
        None => match def_stream_v1(buffer, layout.max_rep > 0, layout.max_def > 0) {
            Ok(data) => data,
            Err(e) => {
                return Err(LevelsError::Hybrid(e));
            },
        },
        Some((rep, def)) => {
            if rep < 0 || def < 0 || rep as usize > buffer.len() || def as usize > buffer.len()
                - rep as usize {
                return Err(LevelsError::LevelLengthsOutOfBounds);
            }
            match def_stream_v2(buffer, rep as usize, def as usize) {
                Ok(data) => data,
                Err(e) => {
                    return Err(LevelsError::Hybrid(e));
                },
            }
        },
    };
    page_levels(data, layout.max_def as u16, layout.num_values)
}

/// The layout of a data page, as its header and column give it.
pub fn page_layout(page: &DataPage) -> PageLayout {
    PageLayout {
        num_values: value_count(page),
        max_def: max_def_level(page),
        max_rep: max_rep_level(page),
        v2_lengths: v2_level_lengths(page),
    }
}

/// What one data page contributes to a column's output.
#[derive(Debug)]
pub struct PageLevels {
    /// The number of values that the page declares.
    pub num_values: usize,
    /// The maximum definition level of the page's column.
    pub max_def: i16,
    /// The page's definition levels, in value order.
    pub levels: Vec<u32>,
}

/// Whether `p` holds a level for each of its values where its column has
/// definition levels, none otherwise, and no level above the maximum.
pub open spec fn page_levels_wf(p: PageLevels) -> bool {
    &&& p.levels@.len() == (if p.num_values == 0 || p.max_def <= 0 {
        0
    } else {
        p.num_values as int
    })
    &&& all_at_most(p.levels@, if p.max_def <= 0 { 0 } else { p.max_def as nat })
}

/// The layout of a decompressed data page and its definition levels, as
/// `buffer_levels` gives them for the page's bytes.
pub fn data_page_levels(page: &DataPage) -> (r: (PageLayout, Result<PageLevels, LevelsError>))
    ensures
        (r.0.num_values == 0 || r.0.max_def <= 0) ==> (r.1 matches Ok(p) && p.levels@.len() == 0),
        r.1 matches Ok(p) ==> p.num_values == r.0.num_values && p.max_def == r.0.max_def
            && page_levels_wf(p),
{
    let layout = page_layout(page);
    let levels = match buffer_levels(page_buffer(page), &layout) {
        Ok(levels) => Ok(
            PageLevels { num_values: layout.num_values, max_def: layout.max_def, levels },
        ),
        Err(e) => Err(e),
    };
    (layout, levels)
}

/// The levels of each page, in page order: what a column's output prints.
pub open spec fn pages_levels(pages: Seq<PageLevels>) -> Seq<Seq<u32>> {
    pages.map_values(|p: PageLevels| p.levels@)
}

/// The number of values that the pages declare, over all pages.
pub open spec fn total_values(pages: Seq<PageLevels>) -> int
    decreases pages.len(),
{
    if pages.len() == 0 {
        0
    } else {
        total_values(pages.drop_last()) + pages.last().num_values
    }
}

/// For a column with definition levels, the levels printed for its data
/// pages are as many as the values that the pages declare, summed.
pub proof fn lemma_level_count(pages: Seq<PageLevels>)
    requires
        forall|k: int|
            0 <= k < pages.len() ==> page_levels_wf(#[trigger] pages[k]) && pages[k].max_def > 0,
    ensures
        flatten(pages_levels(pages)).len() == total_values(pages),
    decreases pages.len(),
{
    if pages.len() > 0 {
        let init = pages.drop_last();
        assert forall|k: int| 0 <= k < init.len() implies page_levels_wf(#[trigger] init[k])
            && init[k].max_def > 0 by {
            assert(init[k] == pages[k]);
        }
        lemma_level_count(init);
        assert(page_levels_wf(pages[pages.len() - 1]));
        assert(pages_levels(pages).drop_last() =~= pages_levels(init));
    }
}

/// For a column without definition levels, no levels line is printed.
pub proof fn lemma_no_levels_printed(pages: Seq<PageLevels>)
    requires
        forall|k: int|
            0 <= k < pages.len() ==> page_levels_wf(#[trigger] pages[k]) && pages[k].max_def
                == 0,
    ensures
        flatten(pages_levels(pages)).len() == 0,
        levels_text(flatten(pages_levels(pages))) == Seq::<char>::empty(),
    decreases pages.len(),
{
    if pages.len() > 0 {
        let init = pages.drop_last();
        assert forall|k: int| 0 <= k < init.len() implies page_levels_wf(#[trigger] init[k])
            && init[k].max_def == 0 by {
            assert(init[k] == pages[k]);
        }
        lemma_no_levels_printed(init);
        assert(pages_levels(pages).drop_last() =~= pages_levels(init));
        assert(page_levels_wf(pages[pages.len() - 1]));
        assert(pages_levels(pages).last() == pages.last().levels@);
        assert(flatten(pages_levels(pages)) =~= flatten(pages_levels(init)));
    }
}

/// Levels of at most 1 print as tokens `0` or `1`, each followed by a space.
pub proof fn lemma_bit_tokens(levels: Seq<u32>)
    requires
        all_at_most(levels, 1),
    ensures
        level_tokens(levels).len() == 2 * levels.len(),
        forall|k: int|
            0 <= k < levels.len() ==> (#[trigger] level_tokens(levels)[2 * k] == '0'
                || level_tokens(levels)[2 * k] == '1') && level_tokens(levels)[2 * k + 1] == ' ',
    decreases levels.len(),
{
    if levels.len() > 0 {
        let init = levels.drop_last();
        assert(all_at_most(init, 1)) by {
            assert forall|k: int| 0 <= k < init.len() implies #[trigger] init[k] <= 1 by {
                assert(init[k] == levels[k]);
            }
        }
        lemma_bit_tokens(init);
        let last = levels.last();
        assert(levels[levels.len() - 1] <= 1);
        assert(decimal(last as nat) == seq![digit_chars()[last as int]]);
        let t = level_tokens(levels);
        let a = level_tokens(init);
        assert(t == a + decimal(last as nat) + seq![' ']);
        assert forall|k: int| 0 <= k < levels.len() implies (#[trigger] t[2 * k] == '0' || t[2
            * k] == '1') && t[2 * k + 1] == ' ' by {
            if k < init.len() {
                assert(t[2 * k] == a[2 * k]);
                assert(t[2 * k + 1] == a[2 * k + 1]);
            }
        }
    }
}

} // verus!
