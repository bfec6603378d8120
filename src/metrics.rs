use vstd::prelude::*;

verus! {

/// The characters shaped to measure a font's cell width: lowercase, uppercase, digits.
pub const REFERENCE_CHARACTERS: &'static str = "abcdefghijklmnopqrstuvwxyzABCDEFGHIJKLMNOPQRSTUVWXYZ1234567890";

/// The reference string shaped to fewer than two glyphs, so no advance can be measured.
#[derive(Clone, Debug)]
pub struct InsufficientGlyphsError {
    pub reference_string: String,
}

/// Number of occurrences of `x` in `s`.
pub open spec fn count_of(s: Seq<i64>, x: i64) -> nat
    decreases s.len(),
{
    if s.len() == 0 {
        0
    } else {
        count_of(s.drop_last(), x) + if s.last() == x { 1nat } else { 0nat }
    }
}

/// `r` is the statistical mode of `s`: a value of `s` that occurs at least as often as
/// any other, and, among those, the one that occurs first.
pub open spec fn is_mode(s: Seq<i64>, r: i64) -> bool {
    exists|i: int|
        0 <= i < s.len() && s[i] == r && (forall|j: int| 0 <= j < s.len() ==> count_of(s, #[trigger] s[j]) <= count_of(s, r))
            && (forall|j: int| 0 <= j < i ==> count_of(s, #[trigger] s[j]) < count_of(s, r))
}

/// Differences between successive horizontal offsets.
pub open spec fn advances_of(offsets: Seq<i32>) -> Seq<i64> {
    Seq::new((offsets.len() - 1) as nat, |i: int| (offsets[i + 1] - offsets[i]) as i64)
}

fn count_in(s: &Vec<i64>, x: i64) -> (c: usize)
    ensures
        c == count_of(s@, x),
{
    let mut c: usize = 0;
    let mut i: usize = 0;
    while i < s.len()
        invariant
            i <= s@.len(),
            c == count_of(s@.take(i as int), x),
            c <= i,
        decreases s@.len() - i,
    {
        assert(s@.take(i as int + 1).drop_last() == s@.take(i as int));
        if s[i] == x {
            c = c + 1;
        }
        i = i + 1;
    }
    assert(s@.take(s@.len() as int) == s@);
    c
}

/// The most frequent value of `values`; ties go to the value that comes first.
pub fn mode(values: &Vec<i64>) -> (r: i64)
    requires
        values@.len() > 0,
    ensures
        is_mode(values@, r),
{
    let mut best: i64 = values[0];
    let mut best_count: usize = count_in(values, values[0]);
    let ghost mut best_idx: int = 0;
    let mut i: usize = 1;
    while i < values.len()
        invariant
            1 <= i <= values@.len(),
            0 <= best_idx < i,
            values@[best_idx] == best,
            best_count == count_of(values@, best),
            forall|j: int| 0 <= j < i ==> count_of(values@, #[trigger] values@[j]) <= best_count,
            forall|j: int| 0 <= j < best_idx ==> count_of(values@, #[trigger] values@[j]) < best_count,
        decreases values@.len() - i,
    {
        let c = count_in(values, values[i]);
        if c > best_count {
            best = values[i];
            best_count = c;
            proof {
                best_idx = i as int;
            }
        }
        i = i + 1;
    }
    assert(values@[best_idx] == best);
    best
}

/// Successive differences of `offsets`.
pub fn advances(offsets: &Vec<i32>) -> (r: Vec<i64>)
    requires
        offsets@.len() > 0,
    ensures
        r@ == advances_of(offsets@),
{
    let mut r: Vec<i64> = Vec::new();
    let mut i: usize = 1;
    while i < offsets.len()
        invariant
            1 <= i <= offsets@.len(),
            r@.len() == i - 1,
            forall|j: int| 0 <= j < i - 1 ==> #[trigger] r@[j] == offsets@[j + 1] - offsets@[j],
        decreases offsets@.len() - i,
    {
        r.push(offsets[i] as i64 - offsets[i - 1] as i64);
        i = i + 1;
    }
    assert(r@ == advances_of(offsets@));
    r
}

/// Cell dimensions of a font: the width is the most frequent advance between the
/// successive glyph offsets of the shaped reference string, the height is
/// `descent - ascent`. Fails when there are fewer than two offsets.
pub fn base_cell_dimensions(ascent: i32, descent: i32, offsets: &Vec<i32>) -> (r: Result<(i64, i64), InsufficientGlyphsError>)
    ensures
        r is Err <==> offsets@.len() < 2,
        r is Ok ==> is_mode(advances_of(offsets@), r->Ok_0.0),
        r is Ok ==> r->Ok_0.1 == descent - ascent,
{
    if offsets.len() < 2 {
        return Err(InsufficientGlyphsError { reference_string: REFERENCE_CHARACTERS.to_owned() });
    }
    let steps = advances(offsets);
    let width = mode(&steps);
    Ok((width, descent as i64 - ascent as i64))
}

} // verus!
