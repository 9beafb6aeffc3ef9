use yutani::shaper::{
    bucket_ligatures, candidate_texts, collect_ligatures, first_glyphs, ligature_of, FaceVariant, Ligature, Shaper,
};

/// The sequences that are tried, with the number of their characters.
const LENGTHS: [usize; 116] = [
    2, 2, 3, 3, 3, 4, 3, 3, 3, 3, 4, 4, 2, 2, 3, 3, 2, 2, 3, 3, 4, 3, 3, 3, 3, 3, 4, 4, 3, 3, 2,
    2, 2, 2, 3, 3, 3, 2, 3, 2, 2, 3, 3, 2, 2, 3, 2, 2, 2, 3, 3, 2, 2, 3, 3, 2, 3, 2, 2, 2, 2, 2,
    2, 2, 2, 2, 2, 3, 2, 2, 3, 2, 2, 3, 2, 2, 3, 2, 5, 2, 3, 2, 3, 2, 2, 2, 3, 3, 2, 2, 3, 2, 3,
    4, 2, 2, 2, 2, 2, 2, 2, 3, 3, 3, 2, 2, 2, 3, 2, 2, 2, 2, 2, 3, 2, 2,
];

fn lig(text: &str) -> Ligature {
    Ligature {
        chars: text.chars().collect(),
        output_glyphs: (1..=text.chars().count() as u32).collect(),
    }
}

fn text(lig: &Ligature) -> String {
    lig.chars.iter().collect()
}

fn cells(text: &str) -> Vec<char> {
    text.chars().collect()
}

#[test]
fn substituted_glyphs_make_a_ligature() {
    let l = ligature_of(cells("->"), vec![5, 6], &vec![1, 2]).expect("substituted");
    assert_eq!(text(&l), "->");
    assert_eq!(l.output_glyphs, vec![5, 6]);
    assert!(ligature_of(cells("->"), vec![1, 6], &vec![1, 2]).is_some());
}

#[test]
fn other_shapings_make_none() {
    assert!(ligature_of(cells("->"), vec![1, 2], &vec![1, 2]).is_none());
    assert!(ligature_of(cells("->"), vec![5], &vec![1, 2]).is_none());
    assert!(ligature_of(cells("->"), vec![5, 0], &vec![1, 2]).is_none());
    assert!(ligature_of(cells("-"), vec![5], &vec![1]).is_none());
}

#[test]
fn buckets_go_from_long_to_short() {
    let buckets = bucket_ligatures(vec![lig("<="), lig("->"), lig("<==>"), lig("<=="), lig("<-")]);
    let names: Vec<String> = buckets[&('<' as u32)].iter().map(text).collect();
    assert_eq!(names, vec!["<==>", "<==", "<=", "<-"]);
    assert_eq!(buckets[&('-' as u32)].len(), 1);
    assert_eq!(buckets.len(), 2);
}

#[test]
fn longest_ligature_wins() {
    let mut shaper = Shaper::new();
    shaper.by_first_char[0] = bucket_ligatures(vec![lig("<="), lig("<==>"), lig("<==")]);
    let found = |t: &str| shaper.match_at(&cells(t), FaceVariant::Regular).map(text);
    assert_eq!(found("<==>x").as_deref(), Some("<==>"));
    assert_eq!(found("<==x").as_deref(), Some("<=="));
    assert_eq!(found("<=").as_deref(), Some("<="));
    assert_eq!(found("<"), None);
    assert_eq!(found("x<="), None);
    assert_eq!(found(""), None);
}

#[test]
fn other_faces_fall_back_to_the_regular_one() {
    let mut shaper = Shaper::new();
    shaper.by_first_char[0] = bucket_ligatures(vec![lig("->"), lig("=>")]);
    shaper.by_first_char[1] = bucket_ligatures(vec![lig("-->")]);
    let bold = |t: &str| shaper.match_at(&cells(t), FaceVariant::Bold).map(text);
    assert_eq!(bold("=>").as_deref(), Some("=>"));
    assert_eq!(bold("-->").as_deref(), Some("-->"));
    assert_eq!(bold("->"), None, "its own bucket is used alone");
}

#[test]
fn shaped_candidates_are_collected() {
    let mut shaped: Vec<Vec<u32>> = LENGTHS.iter().map(|n| vec![7; *n]).collect();
    let alone: Vec<Vec<Vec<u32>>> = LENGTHS.iter().map(|n| vec![vec![7]; *n]).collect();
    assert!(collect_ligatures(&shaped, &alone).is_empty());
    shaped[0] = vec![8, 9];
    let buckets = collect_ligatures(&shaped, &alone);
    assert_eq!(buckets.len(), 1);
    assert_eq!(text(&buckets[&('-' as u32)][0]), "->");
}

#[test]
fn empty_font_has_no_ligatures() {
    let mut shaper = Shaper::new();
    shaper.precompute(FaceVariant::Regular);
    assert!(shaper.set_variant(FaceVariant::Regular, &[], 0));
    shaper.precompute(FaceVariant::Regular);
    assert!(shaper.match_at(&cells("->"), FaceVariant::Regular).is_none());
}

#[test]
fn missing_glyph_is_zero() {
    assert_eq!(first_glyphs(&vec![vec![3, 4], vec![], vec![5]]), vec![3, 0, 5]);
    assert_eq!(FaceVariant::BoldItalic.index(), 3);
}

#[test]
fn candidates_are_texts() {
    let texts = candidate_texts();
    assert_eq!(texts.len(), LENGTHS.len());
    assert_eq!((texts[0].as_str(), texts[115].as_str()), ("->", "/>"));
    for (text, length) in texts.iter().zip(LENGTHS) {
        assert_eq!(text.chars().count(), length);
    }
}
