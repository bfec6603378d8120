use vstd::prelude::*;

verus! {

/// A glyph placed by the layout engine, with the metrics of the font it resolved to.
/// Horizontal offsets are fixed-point, in sixty-fourths of a pixel.
#[derive(Clone, Debug)]
pub struct PositionedGlyph {
    pub glyph_id: u32,
    pub font_name: String,
    pub offset_x: i32,
    pub ascent: u32,
    pub units_per_em: u32,
}

/// A drawable batch for one resolved font: glyph ids, their horizontal
/// positions, and the baseline offset (sixty-fourths of a pixel).
#[derive(Clone, Debug, PartialEq, Eq)]
pub struct GlyphRun {
    pub font_name: String,
    pub glyph_ids: Vec<u32>,
    pub positions: Vec<i32>,
    pub baseline: u64,
}

/// Ascent normalised to the requested size: `ascent * size / units_per_em`,
/// with the size given in sixty-fourths of a point.
pub open spec fn baseline_of(ascent: u32, base_size_q: u32, units_per_em: u32) -> int {
    (ascent as int * base_size_q as int) / (units_per_em as int)
}

/// Index of the first glyph of run `k`.
pub open spec fn run_start(runs: Seq<GlyphRun>, k: int) -> int
    decreases k,
{
    if k <= 0 {
        0
    } else {
        run_start(runs, k - 1) + runs[k - 1].glyph_ids@.len()
    }
}

/// Run `k` is a non-empty batch of consecutive glyphs, starting at `run_start(runs, k)`,
/// all of one font.
pub open spec fn run_matches(runs: Seq<GlyphRun>, k: int, glyphs: Seq<PositionedGlyph>, base_size_q: u32) -> bool {
    let r = runs[k];
    let s = run_start(runs, k);
    &&& r.glyph_ids@.len() > 0
    &&& r.positions@.len() == r.glyph_ids@.len()
    &&& s + r.glyph_ids@.len() <= glyphs.len()
    &&& r.baseline == baseline_of(glyphs[s].ascent, base_size_q, glyphs[s].units_per_em)
    &&& forall|j: int| 0 <= j < r.glyph_ids@.len() ==> {
        &&& #[trigger] r.glyph_ids@[j] == glyphs[s + j].glyph_id
        &&& r.positions@[j] == glyphs[s + j].offset_x
        &&& glyphs[s + j].font_name@ == r.font_name@
    }
}

/// `runs` splits `glyphs`, in order, into maximal runs of one font each.
pub open spec fn segmented(runs: Seq<GlyphRun>, glyphs: Seq<PositionedGlyph>, base_size_q: u32) -> bool {
    &&& run_start(runs, runs.len() as int) == glyphs.len()
    &&& forall|k: int| 0 <= k < runs.len() ==> #[trigger] run_matches(runs, k, glyphs, base_size_q)
    &&& forall|k: int| 0 < k < runs.len() ==> (#[trigger] runs[k]).font_name@ != runs[k - 1].font_name@
}

proof fn lemma_run_start_push(runs: Seq<GlyphRun>, x: GlyphRun, k: int)
    requires
        0 <= k <= runs.len(),
    ensures
        run_start(runs.push(x), k) == run_start(runs, k),
    decreases k,
{
    if k > 0 {
        lemma_run_start_push(runs, x, k - 1);
    }
}

/// Appending the batch of `glyphs[start..end]`, all of one font, keeps `runs` a
/// segmentation of the glyphs before `end`.
proof fn lemma_push_run(runs: Seq<GlyphRun>, run: GlyphRun, glyphs: Seq<PositionedGlyph>, base_size_q: u32, start: int, end: int)
    requires
        0 <= start < end <= glyphs.len(),
        run_start(runs, runs.len() as int) == start,
        forall|k: int| 0 <= k < runs.len() ==> #[trigger] run_matches(runs, k, glyphs, base_size_q),
        forall|j: int| start <= j < end ==> (#[trigger] glyphs[j]).font_name@ == glyphs[start].font_name@,
        run.glyph_ids@.len() == end - start,
        run.positions@.len() == end - start,
        run.font_name@ == glyphs[start].font_name@,
        run.baseline == baseline_of(glyphs[start].ascent, base_size_q, glyphs[start].units_per_em),
        forall|j: int| 0 <= j < end - start ==> {
            &&& #[trigger] run.glyph_ids@[j] == glyphs[start + j].glyph_id
            &&& run.positions@[j] == glyphs[start + j].offset_x
        },
    ensures
        run_start(runs.push(run), runs.len() + 1 as int) == end,
        forall|k: int| 0 <= k < runs.len() + 1 ==> #[trigger] run_matches(runs.push(run), k, glyphs, base_size_q),
        forall|k: int| 0 <= k < runs.len() ==> runs.push(run)[k] == runs[k],
        runs.push(run).last() == run,
{
    let new_runs = runs.push(run);
    assert forall|k: int| 0 <= k <= runs.len() implies run_start(new_runs, k) == run_start(runs, k) by {
        lemma_run_start_push(runs, run, k);
    }
    assert forall|k: int| 0 <= k < new_runs.len() implies #[trigger] run_matches(new_runs, k, glyphs, base_size_q) by {
        if k < runs.len() {
            assert(run_matches(runs, k, glyphs, base_size_q));
            assert(new_runs[k] == runs[k]);
        } else {
            assert(run_start(new_runs, k) == start);
            assert forall|j: int| 0 <= j < run.glyph_ids@.len() implies {
                &&& #[trigger] run.glyph_ids@[j] == glyphs[start + j].glyph_id
                &&& run.positions@[j] == glyphs[start + j].offset_x
                &&& glyphs[start + j].font_name@ == run.font_name@
            } by {
                assert(run.glyph_ids@[j] == glyphs[start + j].glyph_id);
                assert(run.positions@[j] == glyphs[start + j].offset_x);
                assert(glyphs[start + j].font_name@ == glyphs[start].font_name@);
            }
        }
    }
}

/// Builds the drawable batch of the glyphs `glyphs[start..end]`.
fn make_run(glyphs: &Vec<PositionedGlyph>, start: usize, end: usize, base_size_q: u32) -> (r: GlyphRun)
    requires
        start < end <= glyphs@.len(),
        glyphs@[start as int].units_per_em > 0,
    ensures
        r.glyph_ids@.len() == end - start,
        r.positions@.len() == end - start,
        r.font_name@ == glyphs@[start as int].font_name@,
        r.baseline == baseline_of(glyphs@[start as int].ascent, base_size_q, glyphs@[start as int].units_per_em),
        forall|j: int| 0 <= j < end - start ==> {
            &&& #[trigger] r.glyph_ids@[j] == glyphs@[start + j].glyph_id
            &&& r.positions@[j] == glyphs@[start + j].offset_x
        },
{
    let first = &glyphs[start];
    proof {
        assert(first.ascent as int * base_size_q as int <= u32::MAX as int * u32::MAX as int) by (nonlinear_arith);
    }
    let product: u64 = first.ascent as u64 * base_size_q as u64;
    let baseline: u64 = product / first.units_per_em as u64;
    let mut glyph_ids: Vec<u32> = Vec::new();
    let mut positions: Vec<i32> = Vec::new();
    let mut i: usize = start;
    while i < end
        invariant
            start <= i <= end,
            end <= glyphs@.len(),
            glyph_ids@.len() == i - start,
            positions@.len() == i - start,
            forall|j: int| 0 <= j < i - start ==> {
                &&& #[trigger] glyph_ids@[j] == glyphs@[start + j].glyph_id
                &&& positions@[j] == glyphs@[start + j].offset_x
            },
        decreases end - i,
    {
        glyph_ids.push(glyphs[i].glyph_id);
        positions.push(glyphs[i].offset_x);
        i = i + 1;
    }
    GlyphRun { font_name: first.font_name.clone(), glyph_ids, positions, baseline }
}

/// Splits a laid-out glyph sequence into runs of one resolved font each, in order,
/// and builds a batch per run. An empty sequence gives no runs.
pub fn segment_runs(glyphs: &Vec<PositionedGlyph>, base_size_q: u32) -> (r: Vec<GlyphRun>)
    requires
        forall|i: int| 0 <= i < glyphs@.len() ==> #[trigger] glyphs@[i].units_per_em > 0,
    ensures
        segmented(r@, glyphs@, base_size_q),
        glyphs@.len() == 0 ==> r@.len() == 0,
{
    let mut runs: Vec<GlyphRun> = Vec::new();
    let n = glyphs.len();
    if n == 0 {
        return runs;
    }
    let mut start: usize = 0;
    let mut i: usize = 1;
    while i < n
        invariant
            n == glyphs@.len(),
            start < i <= n,
            forall|k: int| 0 <= k < glyphs@.len() ==> #[trigger] glyphs@[k].units_per_em > 0,
            run_start(runs@, runs@.len() as int) == start,
            forall|k: int| 0 <= k < runs@.len() ==> #[trigger] run_matches(runs@, k, glyphs@, base_size_q),
            forall|k: int| 0 < k < runs@.len() ==> (#[trigger] runs@[k]).font_name@ != runs@[k - 1].font_name@,
            runs@.len() > 0 ==> runs@.last().font_name@ != glyphs@[start as int].font_name@,
            forall|j: int| start <= j < i ==> (#[trigger] glyphs@[j]).font_name@ == glyphs@[start as int].font_name@,
        decreases n - i,
    {
        if glyphs[i].font_name != glyphs[start].font_name {
            let run = make_run(glyphs, start, i, base_size_q);
            proof {
                lemma_push_run(runs@, run, glyphs@, base_size_q, start as int, i as int);
            }
            runs.push(run);
            start = i;
        }
        i = i + 1;
    }
    let run = make_run(glyphs, start, n, base_size_q);
    proof {
        lemma_push_run(runs@, run, glyphs@, base_size_q, start as int, n as int);
    }
    runs.push(run);
    runs
}

} // verus!
