use caching_shaper::{
    parse_size, CachingShaper, FontIdentity, FontRole, GlyphRun, PositionedGlyph, FONT_CACHE_CAPACITY,
    REFERENCE_CHARACTERS, SHAPE_CACHE_CAPACITY,
};
use std::collections::hash_map::DefaultHasher;
use std::hash::{Hash, Hasher};

fn glyph(id: u32, font: &str, offset_x: i32) -> PositionedGlyph {
    PositionedGlyph {
        glyph_id: id,
        font_name: font.to_string(),
        offset_x,
        ascent: 800,
        units_per_em: 1000,
    }
}

fn identity(name: &str) -> FontIdentity {
    FontIdentity::new(name.to_string(), 12 * 64, 1, false, false)
}

fn one_run(font: &str) -> Vec<GlyphRun> {
    vec![GlyphRun { font_name: font.to_string(), glyph_ids: vec![1, 2], positions: vec![0, 640], baseline: 614 }]
}

fn hash_of(id: &FontIdentity) -> u64 {
    let mut h = DefaultHasher::new();
    id.hash(&mut h);
    h.finish()
}

#[test]
fn segments_fonts_into_maximal_runs() {
    let fonts = ["A", "A", "B", "B", "B", "A"];
    let glyphs: Vec<PositionedGlyph> =
        fonts.iter().enumerate().map(|(i, f)| glyph(i as u32 + 10, f, i as i32 * 64)).collect();
    let runs = CachingShaper::shape(&glyphs, 12 * 64);
    assert_eq!(runs.len(), 3);
    let lengths: Vec<usize> = runs.iter().map(|r| r.glyph_ids.len()).collect();
    assert_eq!(lengths, vec![2, 3, 1]);
    let labels: Vec<&str> = runs.iter().map(|r| r.font_name.as_str()).collect();
    assert_eq!(labels, vec!["A", "B", "A"]);
    assert_eq!(runs[1].glyph_ids, vec![12, 13, 14]);
    assert_eq!(runs[1].positions, vec![128, 192, 256]);
    assert_eq!(runs[2].glyph_ids, vec![15]);
}

#[test]
fn baseline_is_ascent_scaled_to_size() {
    let glyphs = vec![glyph(1, "A", 0)];
    let runs = CachingShaper::shape(&glyphs, 12 * 64);
    // 800 * 768 / 1000
    assert_eq!(runs[0].baseline, 614);
}

#[test]
fn single_font_gives_one_run() {
    let glyphs = vec![glyph(1, "A", 0), glyph(2, "A", 64), glyph(3, "A", 128)];
    let runs = CachingShaper::shape(&glyphs, 64);
    assert_eq!(runs.len(), 1);
    assert_eq!(runs[0].glyph_ids, vec![1, 2, 3]);
}

#[test]
fn empty_layout_gives_empty_result() {
    let runs = CachingShaper::shape(&Vec::new(), 12 * 64);
    assert!(runs.is_empty());
}

#[test]
fn empty_text_round_trips_through_the_cache() {
    let mut shaper = CachingShaper::new();
    let id = identity("Mono");
    assert!(shaper.shape_cached("", &id).is_none());
    let runs = CachingShaper::shape(&Vec::new(), id.size_q);
    shaper.store_shape("", &id, runs);
    assert_eq!(shaper.shape_cached("", &id), Some(Vec::new()));
}

#[test]
fn second_lookup_hits_with_same_value() {
    let mut shaper = CachingShaper::new();
    let id = identity("Mono");
    assert!(shaper.shape_cached("hello", &id).is_none());
    shaper.store_shape("hello", &id, one_run("Mono Regular"));
    let first = shaper.shape_cached("hello", &id);
    let second = shaper.shape_cached("hello", &id);
    assert_eq!(first, Some(one_run("Mono Regular")));
    assert_eq!(first, second);
    assert!(shaper.shape_cached("hello", &identity("Other")).is_none());
    assert!(shaper.shape_cached("hellO", &id).is_none());
}

#[test]
fn clear_turns_hits_into_misses() {
    let mut shaper = CachingShaper::new();
    let id = identity("Mono");
    shaper.store_shape("abc", &id, one_run("Mono"));
    shaper.resolve_loaded(&id, Some(1), Some(2)).unwrap();
    assert!(shaper.shape_cached("abc", &id).is_some());
    shaper.clear();
    assert!(shaper.shape_cached("abc", &id).is_none());
    assert!(shaper.resolve_cached(&id).is_none());
}

#[test]
fn shape_cache_evicts_least_recently_used() {
    let mut shaper = CachingShaper::new();
    let id = identity("Mono");
    for i in 0..SHAPE_CACHE_CAPACITY {
        shaper.store_shape(&format!("t{}", i), &id, Vec::new());
    }
    // refresh t1, so t0 and t2 are the oldest
    assert!(shaper.shape_cached("t1", &id).is_some());
    shaper.store_shape("new", &id, Vec::new());
    assert!(shaper.shape_cached("t0", &id).is_none());
    assert!(shaper.shape_cached("t1", &id).is_some());
    assert!(shaper.shape_cached("new", &id).is_some());
    shaper.store_shape("newer", &id, Vec::new());
    assert!(shaper.shape_cached("t2", &id).is_none());
    assert!(shaper.shape_cached("t3", &id).is_some());
}

#[test]
fn font_cache_evicts_least_recently_used() {
    let mut shaper = CachingShaper::new();
    for i in 0..FONT_CACHE_CAPACITY {
        shaper.resolve_loaded(&identity(&format!("f{}", i)), None, Some(i as u64)).unwrap();
    }
    assert_eq!(shaper.resolve_cached(&identity("f0")).map(|e| e.families), Some(vec![0]));
    shaper.resolve_loaded(&identity("extra"), None, Some(999)).unwrap();
    assert!(shaper.resolve_cached(&identity("f0")).is_some());
    assert!(shaper.resolve_cached(&identity("f1")).is_none());
    assert!(shaper.resolve_cached(&identity("f2")).is_some());
    assert!(shaper.resolve_cached(&identity("extra")).is_some());
}

#[test]
fn collection_puts_fallback_first() {
    let mut shaper = CachingShaper::new();
    let id = identity("Mono");
    let entry = shaper.resolve_loaded(&id, Some(7), Some(3)).unwrap();
    assert_eq!(entry.families, vec![7, 3]);
    assert!(entry.has_fallback);
    let cached = shaper.resolve_cached(&id).unwrap();
    assert_eq!(cached.families, vec![7, 3]);
}

#[test]
fn missing_fallback_degrades() {
    let mut shaper = CachingShaper::new();
    let entry = shaper.resolve_loaded(&identity("Mono"), None, Some(3)).unwrap();
    assert_eq!(entry.families, vec![3]);
    assert!(!entry.has_fallback);
}

#[test]
fn missing_primary_fails() {
    let mut shaper = CachingShaper::new();
    let id = identity("Nowhere Sans");
    let err = shaper.resolve_loaded(&id, Some(1), None).unwrap_err();
    assert_eq!(err.family, "Nowhere Sans");
    assert_eq!(err.role, FontRole::Primary);
    assert!(shaper.resolve_cached(&id).is_none());
}

#[test]
fn width_is_mode_of_advances() {
    // advances 5, 5, 5, 7, 5, 6
    let offsets = vec![0, 5, 10, 15, 22, 27, 33];
    assert_eq!(CachingShaper::font_base_dimensions(-12, 4, &offsets).unwrap(), (5, 16));
}

#[test]
fn mode_ties_go_to_first_value() {
    // advances 7, 3, 3, 7
    let offsets = vec![0, 7, 10, 13, 20];
    assert_eq!(CachingShaper::font_base_dimensions(-10, 3, &offsets).unwrap().0, 7);
}

#[test]
fn too_few_glyphs_is_an_error() {
    let err = CachingShaper::font_base_dimensions(-10, 3, &vec![4]).unwrap_err();
    assert_eq!(err.reference_string, REFERENCE_CHARACTERS);
    assert!(CachingShaper::font_base_dimensions(-10, 3, &Vec::new()).is_err());
    assert_eq!(REFERENCE_CHARACTERS.len(), 62);
}

#[test]
fn size_text_spellings_agree() {
    assert_eq!(parse_size("12"), Some(768));
    assert_eq!(parse_size("12.0"), Some(768));
    assert_eq!(parse_size("12.00"), Some(768));
    assert_eq!(parse_size("12."), Some(768));
    assert_eq!(parse_size("12.5"), Some(800));
    assert_eq!(parse_size("0.0078125"), Some(1));
    assert_eq!(parse_size("0.0078124"), Some(0));
}

#[test]
fn malformed_size_text_is_rejected() {
    assert_eq!(parse_size(""), None);
    assert_eq!(parse_size(".5"), None);
    assert_eq!(parse_size("1.2.3"), None);
    assert_eq!(parse_size("12pt"), None);
    assert_eq!(parse_size("١٢"), None);
    assert_eq!(parse_size("1234567890"), None);
    assert_eq!(parse_size("1.1234567890"), None);
    assert_eq!(parse_size("999999999"), None);
    assert_eq!(parse_size("67108863"), Some(4294967232));
}

#[test]
fn identities_from_equal_sizes_compare_and_hash_equal() {
    let a = FontIdentity::with_size_text("Mono".to_string(), "12.0", 2, true, false).unwrap();
    let b = FontIdentity::with_size_text("Mono".to_string(), "12.00", 2, true, false).unwrap();
    assert!(a == b);
    assert_eq!(hash_of(&a), hash_of(&b));
    let c = FontIdentity::with_size_text("Mono".to_string(), "12.01", 2, true, false).unwrap();
    assert_eq!(c.size_q, 769);
    assert!(a != c);
    assert!(FontIdentity::with_size_text("Mono".to_string(), "big", 2, true, false).is_none());
}

#[test]
fn identity_key_drives_font_cache_hits() {
    let mut shaper = CachingShaper::new();
    let a = FontIdentity::with_size_text("Mono".to_string(), "12.0", 1, false, false).unwrap();
    let b = FontIdentity::with_size_text("Mono".to_string(), "12.00", 1, false, false).unwrap();
    shaper.resolve_loaded(&a, None, Some(5)).unwrap();
    assert_eq!(shaper.resolve_cached(&b).map(|e| e.families), Some(vec![5]));
}
