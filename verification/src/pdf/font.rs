//! The tables of an embedded font that come from the shaped text: the
//! ToUnicode CMap, which maps each glyph back to the characters it shows,
//! and the glyph advances from which the widths array is made.
use vstd::prelude::*;
use vstd::string::{StrSliceExecFns, StringSliceAdditionalSpecFns};
use vstd::utf8::{decode_utf8, encode_utf8, is_char_boundary};

use crate::error::AppError;
use crate::font::shaper::slice_text;
use crate::font::types::{ShapedGlyph, ShapedRun};
use crate::pdf::encoding::{decimal, hex4, push_decimal, push_hex4, push_utf16_hex, utf16_hex};
use crate::pdf::table::{
    first_table, first_value_for, has_id, insert_first, is_first_table, lemma_first_table_exists,
    lemma_first_value_some, lemma_is_first_table,
};
use crate::text::{chars_of, string_from_chars};

verus! {

/// A shaped run as plain values: its text and its glyphs.
pub open spec fn runs_view(runs: Seq<ShapedRun>) -> Seq<(Seq<char>, Seq<ShapedGlyph>)> {
    runs.map_values(|r: ShapedRun| (r.text@, r.glyphs@))
}

/// The smallest cluster of `glyphs` that lies after byte `start`, if any.
pub open spec fn cluster_after(glyphs: Seq<ShapedGlyph>, start: int) -> Option<int>
    decreases glyphs.len(),
{
    if glyphs.len() == 0 {
        None
    } else {
        let rest = cluster_after(glyphs.drop_last(), start);
        let c = glyphs.last().cluster as int;
        if c > start {
            match rest {
                Some(m) => Some(if c < m { c } else { m }),
                None => Some(c),
            }
        } else {
            rest
        }
    }
}

/// The next cluster lies after the start.
proof fn lemma_cluster_after_gt(glyphs: Seq<ShapedGlyph>, start: int)
    ensures
        cluster_after(glyphs, start) matches Some(m) ==> m > start,
    decreases glyphs.len(),
{
    if glyphs.len() > 0 {
        lemma_cluster_after_gt(glyphs.drop_last(), start);
    }
}

/// Where the characters of the cluster at byte `start` end: at the next
/// cluster of the run, or at the end of its text (`len` bytes).
pub open spec fn cluster_end(glyphs: Seq<ShapedGlyph>, start: int, len: int) -> int {
    match cluster_after(glyphs, start) {
        Some(m) => m,
        None => len,
    }
}

proof fn lemma_cluster_after_is_least(glyphs: Seq<ShapedGlyph>, start: int)
    ensures
        forall|i: int| 0 <= i < glyphs.len() && #[trigger] glyphs[i].cluster > start
            ==> (cluster_after(glyphs, start) matches Some(m) && m <= glyphs[i].cluster),
        cluster_after(glyphs, start) matches Some(m)
            ==> (m > start && exists|i: int| 0 <= i < glyphs.len() && #[trigger] glyphs[i].cluster == m),
    decreases glyphs.len(),
{
    if glyphs.len() > 0 {
        let pre = glyphs.drop_last();
        lemma_cluster_after_is_least(pre, start);
        assert forall|i: int| 0 <= i < glyphs.len() && #[trigger] glyphs[i].cluster > start
            implies (cluster_after(glyphs, start) matches Some(m) && m <= glyphs[i].cluster) by {
            if i < pre.len() {
                assert(pre[i] == glyphs[i]);
            }
        }
        if cluster_after(glyphs, start) is Some {
            let m = cluster_after(glyphs, start)->0;
            if m == glyphs.last().cluster as int {
                assert(glyphs[glyphs.len() - 1].cluster == m);
            } else {
                let i = choose|i: int| 0 <= i < pre.len() && #[trigger] pre[i].cluster == m;
                assert(glyphs[i] == pre[i]);
            }
        }
    }
}

/// The characters of a glyph's cluster run from its start up to the least
/// cluster of the run that lies after it, or to the end of the text where
/// none does: the end lies after the start, no cluster of the run lies
/// between the two, and the end is a cluster of the run or the text's end.
pub proof fn law_cluster_ends_at_next_cluster(glyphs: Seq<ShapedGlyph>, start: int, len: int)
    requires
        0 <= start < len,
    ensures
        start < cluster_end(glyphs, start, len),
        forall|i: int| 0 <= i < glyphs.len() && #[trigger] glyphs[i].cluster > start
            ==> cluster_end(glyphs, start, len) <= glyphs[i].cluster,
        cluster_end(glyphs, start, len) == len
            || exists|i: int| 0 <= i < glyphs.len() && #[trigger] glyphs[i].cluster == cluster_end(glyphs, start, len),
        (forall|i: int| 0 <= i < glyphs.len() ==> #[trigger] glyphs[i].cluster <= start)
            ==> cluster_end(glyphs, start, len) == len,
{
    lemma_cluster_after_is_least(glyphs, start);
}


/// The characters that each of the first `upto` glyphs of run `r` stands
/// for, as the glyph id with the run and byte range of those characters;
/// glyphs whose cluster lies past the text stand for none.
pub open spec fn run_sources(r: int, text: Seq<char>, glyphs: Seq<ShapedGlyph>, upto: int) -> Seq<(u32, (usize, usize, usize))>
    decreases upto,
{
    if upto <= 0 {
        Seq::empty()
    } else {
        let prev = run_sources(r, text, glyphs, upto - 1);
        let g = glyphs[upto - 1];
        let len = encode_utf8(text).len() as int;
        let start = g.cluster as int;
        if start < len {
            prev.push((g.id, (r as usize, start as usize, cluster_end(glyphs, start, len) as usize)))
        } else {
            prev
        }
    }
}

/// The sources of all glyphs of all runs, in order.
pub open spec fn cmap_sources(runs: Seq<(Seq<char>, Seq<ShapedGlyph>)>) -> Seq<(u32, (usize, usize, usize))>
    decreases runs.len(),
{
    if runs.len() == 0 {
        Seq::empty()
    } else {
        let r = runs.len() - 1;
        cmap_sources(runs.drop_last()) + run_sources(r, runs[r].0, runs[r].1, runs[r].1.len() as int)
    }
}

/// The characters that a source names.
pub open spec fn source_text(runs: Seq<(Seq<char>, Seq<ShapedGlyph>)>, src: (usize, usize, usize)) -> Seq<char> {
    decode_utf8(encode_utf8(runs[src.0 as int].0).subrange(src.1 as int, src.2 as int))
}

/// Whether a source names a byte range of a run's text that starts and
/// ends on character boundaries.
pub open spec fn source_ok(runs: Seq<(Seq<char>, Seq<ShapedGlyph>)>, src: (usize, usize, usize)) -> bool {
    let bytes = encode_utf8(runs[src.0 as int].0);
    &&& src.0 < runs.len()
    &&& src.1 <= src.2 <= bytes.len()
    &&& is_char_boundary(bytes, src.1 as int)
    &&& is_char_boundary(bytes, src.2 as int)
}

/// Whether each cluster that lies inside its run's text starts on a
/// character boundary and its characters end on one inside the text: the
/// inputs on which the characters of every glyph can be cut out.
pub open spec fn cmap_slices_valid(runs: Seq<(Seq<char>, Seq<ShapedGlyph>)>) -> bool {
    forall|r: int, i: int| 0 <= r < runs.len() && 0 <= i < runs[r].1.len() ==> {
        let bytes = encode_utf8(runs[r].0);
        let start = (#[trigger] runs[r].1[i]).cluster as int;
        start < bytes.len() ==> {
            &&& is_char_boundary(bytes, start)
            &&& cluster_end(runs[r].1, start, bytes.len() as int) <= bytes.len()
            &&& is_char_boundary(bytes, cluster_end(runs[r].1, start, bytes.len() as int))
        }
    }
}

/// Whether some glyph that stands for characters has an id past two bytes.
pub open spec fn cmap_id_overflow(runs: Seq<(Seq<char>, Seq<ShapedGlyph>)>) -> bool {
    exists|j: int| 0 <= j < cmap_sources(runs).len() && (#[trigger] cmap_sources(runs)[j]).0 > 0xFFFF
}

/// The start of the CMap, up to its count of character mappings.
pub open spec fn cmap_head() -> Seq<char> {
    "/CIDInit /ProcSet findresource begin\n12 dict begin\nbegincmap\n/CIDSystemInfo <<\n/Registry (Adobe)\n/Ordering (UCS)\n/Supplement 0\n>> def\n/CMapName /NevisUnicode def\n/CMapType 2 def\n1 begincodespacerange\n<0000> <FFFF>\nendcodespacerange\n"@
}

/// The end of the CMap, after its character mappings.
pub open spec fn cmap_tail() -> Seq<char> {
    "endbfchar\nendcmap\nCMapName currentdict /CMap defineresource pop\nend\nend\n"@
}

/// One character mapping: the glyph id and the UTF-16 code units of its
/// characters, both in hexadecimal.
pub open spec fn cmap_line(id: u32, text: Seq<char>) -> Seq<char> {
    "<"@ + hex4(id as int) + "> <"@ + utf16_hex(text) + ">\n"@
}

/// The character mappings of a table of sources, in its order.
pub open spec fn cmap_lines(runs: Seq<(Seq<char>, Seq<ShapedGlyph>)>, table: Seq<(u32, (usize, usize, usize))>) -> Seq<char>
    decreases table.len(),
{
    if table.len() == 0 {
        Seq::empty()
    } else {
        cmap_lines(runs, table.drop_last()) + cmap_line(table.last().0, source_text(runs, table.last().1))
    }
}

/// The ToUnicode CMap of the runs: one mapping per glyph id that stands
/// for characters, in ascending id order, each to the characters of the
/// first glyph with that id.
pub open spec fn to_unicode_cmap(runs: Seq<(Seq<char>, Seq<ShapedGlyph>)>) -> Seq<char> {
    let table = first_table(cmap_sources(runs));
    cmap_head() + decimal(table.len()) + " beginbfchar\n"@ + cmap_lines(runs, table) + cmap_tail()
}

/// The ToUnicode CMap maps each glyph id that stands for characters once,
/// in ascending order, to the characters of the first glyph with that id:
/// the table it is written from is the table of the glyphs' sources.
pub proof fn law_cmap_maps_each_glyph_once(runs: Seq<(Seq<char>, Seq<ShapedGlyph>)>)
    ensures
        is_first_table(first_table(cmap_sources(runs)), cmap_sources(runs)),
{
    lemma_first_table_exists(cmap_sources(runs));
}

/// Appends the characters of `s`.
fn push_str(out: &mut Vec<char>, s: &str)
    ensures
        final(out)@ == old(out)@ + s@,
{
    let mut v = chars_of(s);
    out.append(&mut v);
}

/// The next cluster of `glyphs` after byte `start`, or `len` where none.
fn find_cluster_end(glyphs: &Vec<ShapedGlyph>, start: usize, len: usize) -> (end: usize)
    ensures
        end as int == cluster_end(glyphs@, start as int, len as int),
{
    let mut best: Option<u32> = None;
    let mut j: usize = 0;
    while j < glyphs.len()
        invariant
            j <= glyphs@.len(),
            match best {
                Some(m) => cluster_after(glyphs@.take(j as int), start as int) == Some(m as int),
                None => cluster_after(glyphs@.take(j as int), start as int) is None,
            },
        decreases glyphs@.len() - j,
    {
        let c = glyphs[j].cluster;
        proof {
            assert(glyphs@.take(j + 1).drop_last() =~= glyphs@.take(j as int));
        }
        if c as usize > start {
            best = match best {
                Some(m) => Some(if c < m { c } else { m }),
                None => Some(c),
            };
        }
        j += 1;
    }
    assert(glyphs@.take(glyphs@.len() as int) =~= glyphs@);
    match best {
        Some(m) => m as usize,
        None => len,
    }
}

/// Adds the sources of the glyphs of run `r` to the table.
fn add_run_sources(
    table: &mut Vec<(u32, (usize, usize, usize))>,
    run: &ShapedRun,
    r: usize,
    Ghost(runs): Ghost<Seq<(Seq<char>, Seq<ShapedGlyph>)>>,
    Ghost(prefix): Ghost<Seq<(u32, (usize, usize, usize))>>,
)
    requires
        r < runs.len(),
        runs[r as int] == (run.text@, run.glyphs@),
        cmap_slices_valid(runs),
        is_first_table(old(table)@, prefix),
        forall|k: int| 0 <= k < old(table)@.len() ==> source_ok(runs, (#[trigger] old(table)@[k]).1),
    ensures
        is_first_table(final(table)@, prefix + run_sources(r as int, run.text@, run.glyphs@, run.glyphs@.len() as int)),
        forall|k: int| 0 <= k < final(table)@.len() ==> source_ok(runs, (#[trigger] final(table)@[k]).1),
{
    let text = run.text.as_str();
    let len = text.as_bytes().len();
    let mut i: usize = 0;
    while i < run.glyphs.len()
        invariant
            i <= run.glyphs@.len(),
            text@ == run.text@,
            len == text.spec_bytes().len(),
            r < runs.len(),
            runs[r as int] == (run.text@, run.glyphs@),
            cmap_slices_valid(runs),
            is_first_table(table@, prefix + run_sources(r as int, run.text@, run.glyphs@, i as int)),
            forall|k: int| 0 <= k < table@.len() ==> source_ok(runs, (#[trigger] table@[k]).1),
        decreases run.glyphs@.len() - i,
    {
        let g = run.glyphs[i];
        let start = g.cluster as usize;
        let ghost before = run_sources(r as int, run.text@, run.glyphs@, i as int);
        if start < len {
            let end = find_cluster_end(&run.glyphs, start, len);
            proof {
                assert(runs[r as int].1[i as int] == g);
                lemma_cluster_after_gt(run.glyphs@, start as int);
                assert(source_ok(runs, (r, start, end)));
            }
            let ghost old_table = table@;
            insert_first(table, g.id, (r, start, end), Ghost(prefix + before));
            proof {
                assert((prefix + before).push((g.id, (r, start, end))) =~= prefix + run_sources(r as int, run.text@, run.glyphs@, i + 1));
                assert forall|k: int| 0 <= k < table@.len() implies source_ok(runs, (#[trigger] table@[k]).1) by {
                    if table@[k] != (g.id, (r, start, end)) {
                        let m = choose|m: int| 0 <= m < old_table.len() && old_table[m] == table@[k];
                        assert(source_ok(runs, old_table[m].1));
                    }
                }
            }
        } else {
            proof {
                assert(run_sources(r as int, run.text@, run.glyphs@, i + 1) == before);
            }
        }
        i += 1;
    }
}

/// The table of the sources of all glyphs.
fn collect_sources(runs: &[ShapedRun]) -> (table: Vec<(u32, (usize, usize, usize))>)
    requires
        cmap_slices_valid(runs_view(runs@)),
    ensures
        is_first_table(table@, cmap_sources(runs_view(runs@))),
        forall|k: int| 0 <= k < table@.len() ==> source_ok(runs_view(runs@), (#[trigger] table@[k]).1),
{
    let ghost rv = runs_view(runs@);
    let mut table: Vec<(u32, (usize, usize, usize))> = Vec::new();
    let mut r: usize = 0;
    while r < runs.len()
        invariant
            r <= runs@.len(),
            rv == runs_view(runs@),
            cmap_slices_valid(rv),
            is_first_table(table@, cmap_sources(rv.take(r as int))),
            forall|k: int| 0 <= k < table@.len() ==> source_ok(rv, (#[trigger] table@[k]).1),
        decreases runs@.len() - r,
    {
        let ghost prefix = cmap_sources(rv.take(r as int));
        proof {
            assert(rv.take(r + 1).drop_last() =~= rv.take(r as int));
            assert(rv.take(r + 1)[r as int] == rv[r as int]);
        }
        add_run_sources(&mut table, &runs[r], r, Ghost(rv), Ghost(prefix));
        r += 1;
    }
    assert(rv.take(runs@.len() as int) =~= rv);
    table
}

/// The ToUnicode CMap of the shaped runs, as the bytes of its text, or an
/// error where a glyph that stands for characters has an id past two bytes.
pub fn build_to_unicode_cmap(runs: &[ShapedRun]) -> (r: Result<Vec<u8>, AppError>)
    requires
        cmap_slices_valid(runs_view(runs@)),
    ensures
        match r {
            Ok(bytes) => !cmap_id_overflow(runs_view(runs@)) && bytes@ == encode_utf8(to_unicode_cmap(runs_view(runs@))),
            Err(e) => cmap_id_overflow(runs_view(runs@)) && e == AppError::PdfWriter(e->PdfWriter_0)
                && e->PdfWriter_0@ == "glyph ID exceeds PDF CID range"@,
        },
{
    let ghost rv = runs_view(runs@);
    let ghost sources = cmap_sources(rv);
    let table = collect_sources(runs);
    proof {
        lemma_is_first_table(table@, sources);
    }
    let mut k: usize = 0;
    while k < table.len()
        invariant
            k <= table@.len(),
            rv == runs_view(runs@),
            sources == cmap_sources(rv),
            is_first_table(table@, sources),
            forall|m: int| 0 <= m < k ==> (#[trigger] table@[m]).0 <= 0xFFFF,
        decreases table@.len() - k,
    {
        if table[k].0 > 0xFFFF {
            proof {
                assert(first_value_for(sources, table@[k as int].0) == Some(table@[k as int].1));
                lemma_first_value_some(sources, table@[k as int].0);
                let j = choose|j: int| 0 <= j < sources.len() && (#[trigger] sources[j]).0 == table@[k as int].0;
                assert(sources[j].0 > 0xFFFF);
            }
            return Err(AppError::PdfWriter(String::from_str("glyph ID exceeds PDF CID range")));
        }
        k += 1;
    }
    proof {
        assert forall|j: int| 0 <= j < sources.len() implies (#[trigger] sources[j]).0 <= 0xFFFF by {
            assert(has_id(table@, sources[j].0));
            let m = choose|m: int| 0 <= m < table@.len() && (#[trigger] table@[m]).0 == sources[j].0;
        }
    }
    let mut out: Vec<char> = Vec::new();
    push_str(&mut out, "/CIDInit /ProcSet findresource begin\n12 dict begin\nbegincmap\n/CIDSystemInfo <<\n/Registry (Adobe)\n/Ordering (UCS)\n/Supplement 0\n>> def\n/CMapName /NevisUnicode def\n/CMapType 2 def\n1 begincodespacerange\n<0000> <FFFF>\nendcodespacerange\n");
    push_decimal(&mut out, table.len());
    push_str(&mut out, " beginbfchar\n");
    let ghost head = out@;
    let mut k: usize = 0;
    while k < table.len()
        invariant
            k <= table@.len(),
            rv == runs_view(runs@),
            forall|m: int| 0 <= m < table@.len() ==> (#[trigger] table@[m]).0 <= 0xFFFF,
            forall|m: int| 0 <= m < table@.len() ==> source_ok(rv, (#[trigger] table@[m]).1),
            out@ == head + cmap_lines(rv, table@.take(k as int)),
        decreases table@.len() - k,
    {
        let (id, (ri, s, e)) = table[k];
        proof {
            assert(source_ok(rv, table@[k as int].1));
            assert(table@.take(k + 1).drop_last() =~= table@.take(k as int));
            assert(table@.take(k + 1).last() == table@[k as int]);
        }
        let ghost before = out@;
        push_str(&mut out, "<");
        push_hex4(&mut out, id);
        push_str(&mut out, "> <");
        let piece = slice_text(runs[ri].text.as_str(), s, e);
        let chars = chars_of(piece);
        push_utf16_hex(&mut out, &chars);
        push_str(&mut out, ">\n");
        proof {
            assert(out@ =~= before + cmap_line(id, source_text(rv, (ri, s, e))));
        }
        k += 1;
    }
    push_str(&mut out, "endbfchar\nendcmap\nCMapName currentdict /CMap defineresource pop\nend\nend\n");
    proof {
        assert(table@.take(table@.len() as int) =~= table@);
        assert(out@ =~= to_unicode_cmap(rv));
    }
    let text = string_from_chars(out.as_slice());
    Ok(text.as_str().as_bytes_vec())
}


/// The glyphs of all runs, in order.
pub open spec fn all_glyphs(runs: Seq<(Seq<char>, Seq<ShapedGlyph>)>) -> Seq<ShapedGlyph>
    decreases runs.len(),
{
    if runs.len() == 0 {
        Seq::empty()
    } else {
        all_glyphs(runs.drop_last()) + runs.last().1
    }
}

/// Each glyph's id with its horizontal advance.
pub open spec fn advance_entries(glyphs: Seq<ShapedGlyph>) -> Seq<(u32, i32)> {
    glyphs.map_values(|g: ShapedGlyph| (g.id, g.x_advance))
}

/// The id of the first glyph whose id does not fit in two bytes, if any.
pub open spec fn first_oversized_id(glyphs: Seq<ShapedGlyph>) -> Option<u32>
    decreases glyphs.len(),
{
    if glyphs.len() == 0 {
        None
    } else {
        match first_oversized_id(glyphs.drop_last()) {
            Some(id) => Some(id),
            None => if glyphs.last().id > 0xFFFF { Some(glyphs.last().id) } else { None },
        }
    }
}

/// The text of the error for a glyph id past two bytes.
pub open spec fn oversized_id_message(id: u32) -> Seq<char> {
    "glyph ID "@ + decimal(id as nat) + " exceeds PDF CID range"@
}

/// The widths array gives each glyph id once, in ascending order, with the
/// advance of the first glyph with that id.
pub proof fn law_widths_give_each_glyph_once(runs: Seq<(Seq<char>, Seq<ShapedGlyph>)>)
    ensures
        is_first_table(first_table(advance_entries(all_glyphs(runs))), advance_entries(all_glyphs(runs))),
{
    lemma_first_table_exists(advance_entries(all_glyphs(runs)));
}

/// Adds the advances of one run's glyphs to the table, or gives the first
/// id that does not fit in two bytes.
fn add_run_advances(
    table: &mut Vec<(u32, i32)>,
    glyphs: &Vec<ShapedGlyph>,
    Ghost(prefix): Ghost<Seq<ShapedGlyph>>,
) -> (r: Option<u32>)
    requires
        first_oversized_id(prefix) is None,
        is_first_table(old(table)@, advance_entries(prefix)),
    ensures
        r == first_oversized_id(prefix + glyphs@),
        r is None ==> is_first_table(final(table)@, advance_entries(prefix + glyphs@)),
{
    let mut i: usize = 0;
    while i < glyphs.len()
        invariant
            i <= glyphs@.len(),
            first_oversized_id(prefix + glyphs@.take(i as int)) is None,
            is_first_table(table@, advance_entries(prefix + glyphs@.take(i as int))),
        decreases glyphs@.len() - i,
    {
        let g = glyphs[i];
        proof {
            assert((prefix + glyphs@.take(i + 1)).drop_last() =~= prefix + glyphs@.take(i as int));
            assert((prefix + glyphs@.take(i + 1)).last() == g);
        }
        if g.id > 0xFFFF {
            proof {
                lemma_oversized_extends(prefix + glyphs@.take(i + 1), glyphs@.skip(i + 1));
                assert(prefix + glyphs@.take(i + 1) + glyphs@.skip(i + 1) =~= prefix + glyphs@);
            }
            return Some(g.id);
        }
        proof {
            assert(advance_entries(prefix + glyphs@.take(i as int)).push((g.id, g.x_advance)) =~= advance_entries(prefix + glyphs@.take(i + 1)));
        }
        insert_first(table, g.id, g.x_advance, Ghost(advance_entries(prefix + glyphs@.take(i as int))));
        i += 1;
    }
    assert(glyphs@.take(glyphs@.len() as int) =~= glyphs@);
    None
}

/// Once some glyph's id is too large, what follows does not change the
/// first such id.
proof fn lemma_oversized_extends(a: Seq<ShapedGlyph>, b: Seq<ShapedGlyph>)
    requires
        first_oversized_id(a) is Some,
    ensures
        first_oversized_id(a + b) == first_oversized_id(a),
    decreases b.len(),
{
    if b.len() == 0 {
        assert(a + b =~= a);
    } else {
        lemma_oversized_extends(a, b.drop_last());
        assert((a + b).drop_last() =~= a + b.drop_last());
    }
}

/// The glyph ids of the runs with the horizontal advance of the first
/// glyph of each id, in ascending id order; or an error naming the first
/// glyph id that does not fit in two bytes.
pub fn cid_width_entries(runs: &[ShapedRun]) -> (r: Result<Vec<(u32, i32)>, AppError>)
    ensures
        match first_oversized_id(all_glyphs(runs_view(runs@))) {
            Some(id) => r matches Err(e) && e == AppError::PdfWriter(e->PdfWriter_0) && e->PdfWriter_0@ == oversized_id_message(id),
            None => r matches Ok(t) && t@ == first_table(advance_entries(all_glyphs(runs_view(runs@)))),
        },
{
    let ghost rv = runs_view(runs@);
    let mut table: Vec<(u32, i32)> = Vec::new();
    let mut r: usize = 0;
    while r < runs.len()
        invariant
            r <= runs@.len(),
            rv == runs_view(runs@),
            first_oversized_id(all_glyphs(rv.take(r as int))) is None,
            is_first_table(table@, advance_entries(all_glyphs(rv.take(r as int)))),
        decreases runs@.len() - r,
    {
        proof {
            assert(rv.take(r + 1).drop_last() =~= rv.take(r as int));
            assert(rv.take(r + 1).last() == rv[r as int]);
        }
        match add_run_advances(&mut table, &runs[r].glyphs, Ghost(all_glyphs(rv.take(r as int)))) {
            Some(id) => {
                proof {
                    lemma_oversized_extends(all_glyphs(rv.take(r + 1)), all_glyphs_from(rv, r + 1));
                    lemma_all_glyphs_split(rv, r + 1);
                }
                let mut msg: Vec<char> = Vec::new();
                push_str(&mut msg, "glyph ID ");
                push_decimal(&mut msg, id as usize);
                push_str(&mut msg, " exceeds PDF CID range");
                return Err(AppError::PdfWriter(string_from_chars(msg.as_slice())));
            },
            None => {},
        }
        r += 1;
    }
    proof {
        assert(rv.take(runs@.len() as int) =~= rv);
        lemma_is_first_table(table@, advance_entries(all_glyphs(rv)));
    }
    Ok(table)
}

/// The glyphs of the runs from index `from` on.
spec fn all_glyphs_from(runs: Seq<(Seq<char>, Seq<ShapedGlyph>)>, from: int) -> Seq<ShapedGlyph>
    decreases runs.len() - from,
{
    if from >= runs.len() {
        Seq::empty()
    } else {
        runs[from].1 + all_glyphs_from(runs, from + 1)
    }
}

/// The glyphs of all runs are those before an index followed by those from it.
proof fn lemma_all_glyphs_split(runs: Seq<(Seq<char>, Seq<ShapedGlyph>)>, k: int)
    requires
        0 <= k <= runs.len(),
    ensures
        all_glyphs(runs.take(k)) + all_glyphs_from(runs, k) == all_glyphs(runs),
    decreases runs.len() - k,
{
    if k == runs.len() {
        assert(runs.take(k) =~= runs);
        assert(all_glyphs(runs) + Seq::<ShapedGlyph>::empty() =~= all_glyphs(runs));
    } else {
        lemma_all_glyphs_split(runs, k + 1);
        assert(runs.take(k + 1).drop_last() =~= runs.take(k));
        assert(runs.take(k + 1).last() == runs[k]);
        assert(all_glyphs(runs.take(k)) + (runs[k].1 + all_glyphs_from(runs, k + 1)) =~= all_glyphs(runs.take(k)) + runs[k].1 + all_glyphs_from(runs, k + 1));
    }
}

} // verus!
