//! Programming ligatures, found once when a font is loaded.
//!
//! Each candidate sequence is shaped by the font and compared with the glyphs
//! of its characters on their own. Where the font substitutes glyphs one for
//! one, the substitutes are kept, so that drawing needs only a lookup of the
//! longest sequence at a cell.

use crate::text::chars_of;
use std::collections::HashMap;
use vstd::prelude::*;

verus! {

broadcast use vstd::std_specs::hash::group_hash_axioms;

/// The faces of a font family.
#[derive(Copy, Clone, Debug, PartialEq, Eq, Structural)]
pub enum FaceVariant {
    Regular,
    Bold,
    Italic,
    BoldItalic,
}

/// The place of a face among the four.
pub open spec fn variant_index(variant: FaceVariant) -> int {
    match variant {
        FaceVariant::Regular => 0,
        FaceVariant::Bold => 1,
        FaceVariant::Italic => 2,
        FaceVariant::BoldItalic => 3,
    }
}

impl FaceVariant {
    /// The place of a face among the four.
    pub fn index(self) -> (i: usize)
        ensures
            i == variant_index(self),
            i < 4,
    {
        match self {
            FaceVariant::Regular => 0,
            FaceVariant::Bold => 1,
            FaceVariant::Italic => 2,
            FaceVariant::BoldItalic => 3,
        }
    }
}

/// A sequence that the font draws with other glyphs: `output_glyphs[i]` goes
/// into the cell that holds `chars[i]`.
#[derive(Debug)]
pub struct Ligature {
    pub chars: Vec<char>,
    pub output_glyphs: Vec<u32>,
}

/// What a [`Ligature`] holds.
#[verifier::ext_equal]
pub struct LigatureView {
    pub chars: Seq<char>,
    pub output_glyphs: Seq<u32>,
}

impl View for Ligature {
    type V = LigatureView;

    open spec fn view(&self) -> LigatureView {
        LigatureView { chars: self.chars@, output_glyphs: self.output_glyphs@ }
    }
}

/// A ligature has a glyph for each of its characters, at least two of them,
/// and none is the glyph for missing characters.
pub open spec fn ligature_wf(lig: LigatureView) -> bool {
    &&& lig.chars.len() >= 2
    &&& lig.output_glyphs.len() == lig.chars.len()
    &&& forall|i: int| 0 <= i < lig.output_glyphs.len() ==> #[trigger] lig.output_glyphs[i] != 0
}

/// The ligature that a font makes of a sequence, out of the glyphs of the
/// whole sequence and the glyph of each character on its own. There is none
/// unless glyphs are substituted one for one and all of them exist.
pub open spec fn ligature_from(
    chars: Seq<char>,
    shaped: Seq<u32>,
    baseline: Seq<u32>,
) -> Option<LigatureView> {
    let one_for_one = chars.len() >= 2 && shaped.len() == chars.len();
    let substituted = exists|i: int| 0 <= i < chars.len() && #[trigger] shaped[i] != baseline[i];
    let complete = forall|i: int| 0 <= i < chars.len() ==> #[trigger] shaped[i] != 0;
    if one_for_one && substituted && complete {
        Some(LigatureView { chars, output_glyphs: shaped })
    } else {
        None
    }
}

/// Decides whether a shaped sequence is a ligature.
pub fn ligature_of(chars: Vec<char>, shaped: Vec<u32>, baseline: &Vec<u32>) -> (lig: Option<
    Ligature,
>)
    requires
        baseline@.len() == chars@.len(),
    ensures
        match lig {
            Some(l) => ligature_from(chars@, shaped@, baseline@) == Some(l@) && ligature_wf(l@),
            None => ligature_from(chars@, shaped@, baseline@) is None,
        },
{
    if chars.len() < 2 || shaped.len() != chars.len() {
        return None;
    }
    let mut substituted = false;
    let mut i: usize = 0;
    while i < chars.len()
        invariant
            i <= chars@.len(),
            shaped@.len() == chars@.len(),
            baseline@.len() == chars@.len(),
            substituted == exists|k: int| 0 <= k < i && #[trigger] shaped@[k] != baseline@[k],
            forall|k: int| 0 <= k < i ==> #[trigger] shaped@[k] != 0,
        decreases chars@.len() - i,
    {
        let glyph: u32 = shaped[i];
        if glyph == 0 {
            assert(shaped@[i as int] == 0);
            return None;
        }
        if glyph != baseline[i] {
            substituted = true;
        }
        i = i + 1;
    }
    if substituted {
        Some(Ligature { chars, output_glyphs: shaped })
    } else {
        None
    }
}

/// A bucket with one more ligature, behind all that are at least as long.
pub open spec fn inserted(bucket: Seq<LigatureView>, lig: LigatureView) -> Seq<LigatureView>
    decreases bucket.len(),
{
    if bucket.len() == 0 || bucket.last().chars.len() >= lig.chars.len() {
        bucket.push(lig)
    } else {
        inserted(bucket.drop_last(), lig).push(bucket.last())
    }
}

/// The ligatures that start with a character, longest first; equally long ones
/// in the order in which they were found.
pub open spec fn bucket_of(found: Seq<LigatureView>, first: u32) -> Seq<LigatureView>
    decreases found.len(),
{
    if found.len() == 0 {
        Seq::empty()
    } else {
        let before = bucket_of(found.drop_last(), first);
        if found.last().chars[0] as u32 == first {
            inserted(before, found.last())
        } else {
            before
        }
    }
}

/// The contents of a bucket.
pub open spec fn ligature_views(bucket: Seq<Ligature>) -> Seq<LigatureView> {
    Seq::new(bucket.len(), |i: int| bucket[i]@)
}

/// Whether the buckets hold exactly what was found, by first character.
pub open spec fn buckets_hold(buckets: Map<u32, Vec<Ligature>>, found: Seq<LigatureView>) -> bool {
    forall|first: u32|
        #![trigger buckets.contains_key(first)]
        #![trigger bucket_of(found, first)]
        if buckets.contains_key(first) {
            bucket_of(found, first).len() > 0 && ligature_views(buckets[first]@) == bucket_of(
                found,
                first,
            )
        } else {
            bucket_of(found, first).len() == 0
        }
}

/// Puts a ligature into its place in a bucket.
fn insert_by_length(bucket: &mut Vec<Ligature>, lig: Ligature)
    ensures
        ligature_views(final(bucket)@) == inserted(ligature_views(old(bucket)@), lig@),
{
    let ghost before = ligature_views(bucket@);
    let n: usize = bucket.len();
    let mut place: usize = n;
    assert(before.take(n as int) =~= before);
    assert(before.skip(n as int) =~= Seq::<LigatureView>::empty());
    assert(inserted(before, lig@) =~= inserted(before, lig@) + before.skip(n as int));
    while place > 0 && bucket[place - 1].chars.len() < lig.chars.len()
        invariant
            place <= n,
            n == bucket@.len(),
            before == ligature_views(bucket@),
            inserted(before, lig@) == inserted(before.take(place as int), lig@) + before.skip(
                place as int,
            ),
        decreases place,
    {
        proof {
            let head = before.take(place as int);
            assert(head.last() == before[place - 1]);
            assert(head.drop_last() =~= before.take(place - 1));
            assert(before.skip(place - 1) =~= seq![before[place - 1]] + before.skip(place as int));
            assert(inserted(head.drop_last(), lig@).push(head.last()) + before.skip(place as int)
                =~= inserted(head.drop_last(), lig@) + before.skip(place - 1));
        }
        place = place - 1;
    }
    proof {
        let head = before.take(place as int);
        assert(inserted(head, lig@) == head.push(lig@)) by {
            if place > 0 {
                assert(head.last() == before[place - 1]);
            }
        }
    }
    let ghost new = lig@;
    bucket.insert(place, lig);
    assert(ligature_views(bucket@) =~= before.take(place as int).push(new) + before.skip(
        place as int,
    ));
}

/// Inserting never leaves a bucket empty.
proof fn inserted_is_longer(bucket: Seq<LigatureView>, lig: LigatureView)
    ensures
        inserted(bucket, lig).len() == bucket.len() + 1,
    decreases bucket.len(),
{
    if bucket.len() > 0 && bucket.last().chars.len() < lig.chars.len() {
        inserted_is_longer(bucket.drop_last(), lig);
    }
}

/// Sorts ligatures into buckets by their first character, longest first.
pub fn bucket_ligatures(found: Vec<Ligature>) -> (buckets: HashMap<u32, Vec<Ligature>>)
    requires
        forall|i: int| 0 <= i < found@.len() ==> (#[trigger] found@[i]).chars@.len() > 0,
    ensures
        buckets_hold(buckets@, ligature_views(found@)),
{
    let ghost all = ligature_views(found@);
    let ghost given = found@;
    let mut buckets: HashMap<u32, Vec<Ligature>> = HashMap::new();
    assert(all.take(0) =~= Seq::<LigatureView>::empty());
    for lig in it: found
        invariant
            it.seq() == given,
            all == ligature_views(given),
            forall|i: int| 0 <= i < given.len() ==> (#[trigger] given[i]).chars@.len() > 0,
            buckets_hold(buckets@, all.take(it.index() as int)),
    {
        let ghost i = it.index() as int;
        proof {
            assert(lig == given[i]);
            assert(all.take(i + 1).drop_last() =~= all.take(i));
            assert(all.take(i + 1).last() == lig@);
        }
        let first: u32 = lig.chars[0] as u32;
        let ghost before = buckets@;
        let ghost old_bucket = bucket_of(all.take(i), first);
        let mut bucket: Vec<Ligature> = match buckets.remove(&first) {
            Some(bucket) => bucket,
            None => Vec::new(),
        };
        proof {
            assert(before.contains_key(first) || !before.contains_key(first));
            assert(ligature_views(bucket@) =~= old_bucket);
            inserted_is_longer(old_bucket, lig@);
        }
        insert_by_length(&mut bucket, lig);
        buckets.insert(first, bucket);
        proof {
            let next = all.take(i + 1);
            assert forall|c: u32|
                #![trigger buckets@.contains_key(c)]
                #![trigger bucket_of(next, c)]
                if buckets@.contains_key(c) {
                    bucket_of(next, c).len() > 0 && ligature_views(buckets@[c]@) == bucket_of(
                        next,
                        c,
                    )
                } else {
                    bucket_of(next, c).len() == 0
                } by {
                assert(before.contains_key(c) || !before.contains_key(c));
            }
        }
    }
    assert(all.take(all.len() as int) =~= all);
    buckets
}

/// The bytes of a font file and the face in it.
#[derive(Debug)]
pub struct FontFace {
    pub data: Vec<u8>,
    pub face_index: u32,
}

/// Shapes a text with a face: `harfbuzz_rs::Face::from_bytes` and `Font::new`
/// load it, a `UnicodeBuffer` takes the text and guesses its segment
/// properties, and `shape` gives the glyphs, whose ids come back. The guess
/// takes the language from the process's locale, and the choice of a shaper
/// depends on its environment, so nothing is said of the glyphs. An empty text,
/// and one that is too long for the buffer, leaves it without an array of
/// glyphs, which `get_glyph_infos` does not allow for: neither may be given.
#[verifier::external_body]
fn shape(face: &FontFace, text: &str) -> (glyphs: Vec<u32>)
    requires
        0 < text@.len() <= MAX_SHAPED_CHARS,
{
    let hb_face = harfbuzz_rs::Face::from_bytes(face.data.as_slice(), face.face_index);
    let font = harfbuzz_rs::Font::new(hb_face);
    let buffer = harfbuzz_rs::UnicodeBuffer::new().add_str(text).guess_segment_properties();
    let output = harfbuzz_rs::shape(&font, buffer, &[]);
    output.get_glyph_infos().iter().map(|g| g.codepoint).collect()
}

/// Most characters of a text that is shaped: its bytes, at most four for each,
/// and the sizes of the buffer's arrays are counted in 32 bits.
pub const MAX_SHAPED_CHARS: usize = 0x3ff_ffff;

/// Shapes each text with a face. A text that cannot be shaped has no glyphs.
fn shape_each(face: &FontFace, texts: &Vec<String>) -> (glyphs: Vec<Vec<u32>>)
    ensures
        glyphs@.len() == texts@.len(),
{
    let mut glyphs: Vec<Vec<u32>> = Vec::new();
    let mut i: usize = 0;
    while i < texts.len()
        invariant
            i <= texts@.len(),
            glyphs@.len() == i,
        decreases texts@.len() - i,
    {
        let text: &str = texts[i].as_str();
        let n: usize = chars_of(text).len();
        if 0 < n && n <= MAX_SHAPED_CHARS {
            glyphs.push(shape(face, text));
        } else {
            glyphs.push(Vec::new());
        }
        i = i + 1;
    }
    glyphs
}

/// The sequences that fonts make ligatures of. A font that does not know one
/// draws it as it is, so that it is not kept.
pub open spec fn candidates() -> Seq<&'static str> {
    seq![
        "->", "<-", "<->", "-->", "<--", "<-->", "<-<", ">->", "<<-", "->>", "->>>", "<<<-",
        "-<", ">-", "-<<", ">>-", "=>", "<=", "==>", "<==", "<==>", "=>>", "<<=", ">>=", "<=>",
        "=<<", "<<<<", ">>>>", "<<<", ">>>", "<<", ">>", "~>", "<~", "<~>", "~~>", "<~~", "~~",
        "~~~", "==", "!=", "===", "!==", "<=", ">=", "=/=", "/=", "&&", "||", "&&&", "|||",
        "++", "--", "+++", "---", "**", "***", "+=", "-=", "*=", "/=", "%=", "|=", "&=", "^=",
        "|>", "<|", "<|>", "<$", "$>", "<$>", "<*", "*>", "<*>", "<+", "+>", "<+>", "<>",
        "<*-*>", "::", ":::", ":=", "::=", "<:", ":>", "//", "///", "//=", "/*", "*/", "/**",
        "##", "###", "####", "#!", "#=", "#_", "??", "?.", "?:", "..", "...", "..=", "..<",
        "~=", "~@", "~-", "_|_", "<>", "<%", "%>", "@<", "@>", "</>", "</", "/>",
    ]
}

/// The candidate sequences, for execution.
fn candidate_list() -> (list: Vec<&'static str>)
    ensures
        list@ == candidates(),
{
    let list: Vec<&'static str> = vec![
        "->", "<-", "<->", "-->", "<--", "<-->", "<-<", ">->", "<<-", "->>", "->>>", "<<<-",
        "-<", ">-", "-<<", ">>-", "=>", "<=", "==>", "<==", "<==>", "=>>", "<<=", ">>=", "<=>",
        "=<<", "<<<<", ">>>>", "<<<", ">>>", "<<", ">>", "~>", "<~", "<~>", "~~>", "<~~", "~~",
        "~~~", "==", "!=", "===", "!==", "<=", ">=", "=/=", "/=", "&&", "||", "&&&", "|||",
        "++", "--", "+++", "---", "**", "***", "+=", "-=", "*=", "/=", "%=", "|=", "&=", "^=",
        "|>", "<|", "<|>", "<$", "$>", "<$>", "<*", "*>", "<*>", "<+", "+>", "<+>", "<>",
        "<*-*>", "::", ":::", ":=", "::=", "<:", ":>", "//", "///", "//=", "/*", "*/", "/**",
        "##", "###", "####", "#!", "#=", "#_", "??", "?.", "?:", "..", "...", "..=", "..<",
        "~=", "~@", "~-", "_|_", "<>", "<%", "%>", "@<", "@>", "</>", "</", "/>",
    ];
    assert(list@ =~= candidates());
    list
}

/// The candidate sequences as texts to shape.
pub fn candidate_texts() -> (texts: Vec<String>)
    ensures
        texts@.len() == candidates().len(),
        forall|k: int| 0 <= k < texts@.len() ==> (#[trigger] texts@[k])@ == candidates()[k]@,
{
    let list: Vec<&'static str> = candidate_list();
    let mut texts: Vec<String> = Vec::new();
    let mut i: usize = 0;
    while i < list.len()
        invariant
            i <= list@.len(),
            list@ == candidates(),
            texts@.len() == i,
            forall|k: int| 0 <= k < i ==> (#[trigger] texts@[k])@ == candidates()[k]@,
        decreases list@.len() - i,
    {
        texts.push(list[i].to_owned());
        i = i + 1;
    }
    texts
}

/// Ligature lookup for the faces of a font.
#[derive(Debug)]
pub struct Shaper {
    pub fonts: Vec<Option<FontFace>>,
    pub by_first_char: Vec<HashMap<u32, Vec<Ligature>>>,
}

/// Whether a ligature comes from a candidate sequence.
pub open spec fn from_candidates(lig: LigatureView) -> bool {
    exists|k: int| 0 <= k < candidates().len() && (#[trigger] candidates()[k])@ == lig.chars
}

/// Whether the buckets of a face hold well-formed ligatures of the candidate
/// sequences, each under its first character and longest first.
pub open spec fn lookup_wf(buckets: Map<u32, Vec<Ligature>>) -> bool {
    exists|found: Seq<LigatureView>| #[trigger] found_wf(found) && buckets_hold(buckets, found)
}

/// Whether all found ligatures are well formed and come from the candidates.
pub open spec fn found_wf(found: Seq<LigatureView>) -> bool {
    forall|i: int|
        0 <= i < found.len() ==> ligature_wf(#[trigger] found[i]) && from_candidates(found[i])
}

/// The single characters of a text, as texts.
fn singles(chars: &Vec<char>) -> (texts: Vec<String>)
    ensures
        texts@.len() == chars@.len(),
        forall|i: int| 0 <= i < texts@.len() ==> (#[trigger] texts@[i])@ == seq![chars@[i]],
{
    let mut texts: Vec<String> = Vec::new();
    let mut i: usize = 0;
    while i < chars.len()
        invariant
            i <= chars@.len(),
            texts@.len() == i,
            forall|k: int| 0 <= k < i ==> (#[trigger] texts@[k])@ == seq![chars@[k]],
        decreases chars@.len() - i,
    {
        let mut text: String = String::new();
        text.push(chars[i]);
        assert(text@ =~= seq![chars@[i as int]]);
        texts.push(text);
        i = i + 1;
    }
    texts
}

/// The first glyph of each list; zero where a list is empty.
pub fn first_glyphs(lists: &Vec<Vec<u32>>) -> (glyphs: Vec<u32>)
    ensures
        glyphs@ == first_of_each(lists@),
{
    let mut glyphs: Vec<u32> = Vec::new();
    let mut i: usize = 0;
    while i < lists.len()
        invariant
            i <= lists@.len(),
            glyphs@.len() == i,
            forall|k: int|
                0 <= k < i ==> #[trigger] glyphs@[k] == if lists@[k]@.len() > 0 {
                    lists@[k]@[0]
                } else {
                    0u32
                },
        decreases lists@.len() - i,
    {
        let glyph: u32 = if lists[i].len() > 0 {
            lists[i][0]
        } else {
            0
        };
        glyphs.push(glyph);
        i = i + 1;
    }
    glyphs
}

/// The first glyph of each list; zero where a list is empty.
pub open spec fn first_of_each(lists: Seq<Vec<u32>>) -> Seq<u32> {
    Seq::new(
        lists.len(),
        |i: int|
            if lists[i]@.len() > 0 {
                lists[i]@[0]
            } else {
                0u32
            },
    )
}

/// Whether there are glyphs for each candidate, and for each of its characters
/// on its own.
pub open spec fn shaping_fits(shaped: Seq<Vec<u32>>, alone: Seq<Vec<Vec<u32>>>) -> bool {
    &&& shaped.len() == candidates().len()
    &&& alone.len() == candidates().len()
    &&& forall|k: int|
        0 <= k < candidates().len() ==> (#[trigger] alone[k])@.len() == candidates()[k]@.len()
}

/// The ligatures among the first `n` candidates, given the glyphs of each
/// candidate and of its characters on their own.
pub open spec fn found_among(
    shaped: Seq<Vec<u32>>,
    alone: Seq<Vec<Vec<u32>>>,
    n: int,
) -> Seq<LigatureView>
    decreases n,
{
    if n <= 0 {
        Seq::empty()
    } else {
        let before = found_among(shaped, alone, n - 1);
        match ligature_from(
            candidates()[n - 1]@,
            shaped[n - 1]@,
            first_of_each(alone[n - 1]@),
        ) {
            Some(lig) => before.push(lig),
            None => before,
        }
    }
}

/// Every ligature that is found is well formed and comes from a candidate.
proof fn found_is_wf(shaped: Seq<Vec<u32>>, alone: Seq<Vec<Vec<u32>>>, n: int)
    requires
        0 <= n <= candidates().len(),
    ensures
        found_wf(found_among(shaped, alone, n)),
    decreases n,
{
    if n > 0 {
        found_is_wf(shaped, alone, n - 1);
        let before = found_among(shaped, alone, n - 1);
        let after = found_among(shaped, alone, n);
        assert forall|i: int| 0 <= i < after.len() implies ligature_wf(#[trigger] after[i])
            && from_candidates(after[i]) by {
            if i < before.len() {
                assert(after[i] == before[i]);
            } else {
                assert(candidates()[n - 1]@ == after[i].chars);
            }
        }
    }
}

/// Sorts out which candidates the font makes ligatures of, given the glyphs of
/// each candidate and of its characters on their own.
pub fn collect_ligatures(shaped: &Vec<Vec<u32>>, alone: &Vec<Vec<Vec<u32>>>) -> (buckets: HashMap<
    u32,
    Vec<Ligature>,
>)
    requires
        shaping_fits(shaped@, alone@),
    ensures
        buckets_hold(buckets@, found_among(shaped@, alone@, candidates().len() as int)),
{
    let list: Vec<&'static str> = candidate_list();
    let mut found: Vec<Ligature> = Vec::new();
    let mut k: usize = 0;
    assert(ligature_views(found@) =~= found_among(shaped@, alone@, 0));
    while k < list.len()
        invariant
            k <= list@.len(),
            list@ == candidates(),
            shaping_fits(shaped@, alone@),
            ligature_views(found@) == found_among(shaped@, alone@, k as int),
        decreases list@.len() - k,
    {
        let chars: Vec<char> = chars_of(list[k]);
        let baseline: Vec<u32> = first_glyphs(&alone[k]);
        let ghost before = ligature_views(found@);
        let mut glyphs: Vec<u32> = Vec::new();
        glyphs.extend_from_slice(shaped[k].as_slice());
        assert(glyphs@ =~= shaped@[k as int]@);
        if let Some(lig) = ligature_of(chars, glyphs, &baseline) {
            let ghost new = lig@;
            found.push(lig);
            assert(ligature_views(found@) =~= before.push(new));
        }
        k = k + 1;
    }
    proof {
        found_is_wf(shaped@, alone@, candidates().len() as int);
        assert forall|j: int| 0 <= j < found@.len() implies (#[trigger] found@[j]).chars@.len()
            > 0 by {
            assert(ligature_wf(ligature_views(found@)[j]));
        }
    }
    bucket_ligatures(found)
}

/// Whether a sequence is the beginning of the cells.
pub open spec fn is_prefix(chars: Seq<char>, cells: Seq<char>) -> bool {
    chars.len() <= cells.len() && cells.subrange(0, chars.len() as int) == chars
}

/// Whether a sequence is the beginning of the cells, for execution.
fn begins_with(cells: &[char], chars: &Vec<char>) -> (b: bool)
    ensures
        b == is_prefix(chars@, cells@),
{
    if chars.len() > cells.len() {
        return false;
    }
    let mut i: usize = 0;
    while i < chars.len()
        invariant
            i <= chars@.len() <= cells@.len(),
            forall|k: int| 0 <= k < i ==> cells@[k] == #[trigger] chars@[k],
        decreases chars@.len() - i,
    {
        let x: char = cells[i];
        let y: char = chars[i];
        if x != y {
            assert(cells@.subrange(0, chars@.len() as int)[i as int] != chars@[i as int]);
            return false;
        }
        i = i + 1;
    }
    assert(cells@.subrange(0, chars@.len() as int) =~= chars@);
    true
}

/// The bucket for cells under a face: its own, or the regular face's where it
/// has none for the first character.
pub open spec fn bucket_for(
    buckets: Seq<HashMap<u32, Vec<Ligature>>>,
    cells: Seq<char>,
    variant: FaceVariant,
) -> Option<Seq<LigatureView>> {
    let first = cells[0] as u32;
    let own = buckets[variant_index(variant)]@;
    let regular = buckets[0]@;
    if cells.len() == 0 {
        None
    } else if own.contains_key(first) {
        Some(ligature_views(own[first]@))
    } else if regular.contains_key(first) {
        Some(ligature_views(regular[first]@))
    } else {
        None
    }
}

/// The first ligature of a bucket that the cells begin with.
pub open spec fn first_match(bucket: Seq<LigatureView>, cells: Seq<char>) -> Option<LigatureView>
    decreases bucket.len(),
{
    if bucket.len() == 0 {
        None
    } else if is_prefix(bucket[0].chars, cells) {
        Some(bucket[0])
    } else {
        first_match(bucket.drop_first(), cells)
    }
}

impl Shaper {
    /// A font and a lookup for each of the four faces.
    pub open spec fn wf(&self) -> bool {
        &&& self.fonts@.len() == 4
        &&& self.by_first_char@.len() == 4
        &&& forall|v: int| 0 <= v < 4 ==> lookup_wf((#[trigger] self.by_first_char@[v])@)
    }

    /// A shaper without fonts.
    pub fn new() -> (shaper: Self)
        ensures
            shaper.wf(),
            forall|v: int| 0 <= v < 4 ==> (#[trigger] shaper.fonts@[v]) is None,
            forall|v: int|
                0 <= v < 4 ==> (#[trigger] shaper.by_first_char@[v])@ == Map::<
                    u32,
                    Vec<Ligature>,
                >::empty(),
    {
        let mut fonts: Vec<Option<FontFace>> = Vec::new();
        let mut by_first_char: Vec<HashMap<u32, Vec<Ligature>>> = Vec::new();
        let mut v: usize = 0;
        while v < 4
            invariant
                v <= 4,
                fonts@.len() == v,
                by_first_char@.len() == v,
                forall|k: int| 0 <= k < v ==> (#[trigger] fonts@[k]) is None,
                forall|k: int|
                    0 <= k < v ==> (#[trigger] by_first_char@[k])@ == Map::<
                        u32,
                        Vec<Ligature>,
                    >::empty(),
            decreases 4 - v,
        {
            fonts.push(None);
            by_first_char.push(HashMap::new());
            v = v + 1;
        }
        let shaper = Shaper { fonts, by_first_char };
        proof {
            let nothing = Seq::<LigatureView>::empty();
            assert(found_wf(nothing));
            assert forall|k: int| 0 <= k < 4 implies lookup_wf(
                (#[trigger] shaper.by_first_char@[k])@,
            ) by {
                assert(buckets_hold(shaper.by_first_char@[k]@, nothing));
            }
        }
        shaper
    }

    /// Installs the font of a face.
    pub fn set_variant(&mut self, variant: FaceVariant, data: &[u8], face_index: u32) -> (installed:
        bool)
        requires
            old(self).wf(),
        ensures
            installed,
            final(self).wf(),
            final(self).by_first_char == old(self).by_first_char,
            final(self).fonts@.len() == 4,
            forall|v: int|
                0 <= v < 4 && v != variant_index(variant) ==> #[trigger] final(self).fonts@[v]
                    == old(self).fonts@[v],
            final(self).fonts@[variant_index(variant)] matches Some(face) && face.data@ == data@
                && face.face_index == face_index,
    {
        let mut copy: Vec<u8> = Vec::new();
        copy.extend_from_slice(data);
        assert(copy@ =~= data@);
        self.fonts[variant.index()] = Some(FontFace { data: copy, face_index });
        true
    }

    /// Finds the ligatures of a face among the candidates. Without a font the
    /// lookup stays as it is.
    pub fn precompute(&mut self, variant: FaceVariant)
        requires
            old(self).wf(),
        ensures
            final(self).wf(),
            final(self).fonts == old(self).fonts,
            forall|v: int|
                0 <= v < 4 && (v != variant_index(variant) || old(self).fonts@[v] is None)
                    ==> #[trigger] final(self).by_first_char@[v] == old(self).by_first_char@[v],
            old(self).fonts@[variant_index(variant)] is Some ==> exists|
                shaped: Seq<Vec<u32>>,
                alone: Seq<Vec<Vec<u32>>>,
            | #[trigger]
                shaping_fits(shaped, alone) && buckets_hold(
                    final(self).by_first_char@[variant_index(variant)]@,
                    found_among(shaped, alone, candidates().len() as int),
                ),
    {
        let v: usize = variant.index();
        let face: &FontFace = match &self.fonts[v] {
            Some(face) => face,
            None => {
                return;
            },
        };
        let texts: Vec<String> = candidate_texts();
        let shaped: Vec<Vec<u32>> = shape_each(face, &texts);
        let mut alone: Vec<Vec<Vec<u32>>> = Vec::new();
        let mut i: usize = 0;
        while i < texts.len()
            invariant
                i <= texts@.len(),
                texts@.len() == candidates().len(),
                forall|k: int|
                    0 <= k < texts@.len() ==> (#[trigger] texts@[k])@ == candidates()[k]@,
                alone@.len() == i,
                forall|k: int|
                    0 <= k < i ==> (#[trigger] alone@[k])@.len() == candidates()[k]@.len(),
            decreases texts@.len() - i,
        {
            let chars: Vec<char> = chars_of(texts[i].as_str());
            alone.push(shape_each(face, &singles(&chars)));
            i = i + 1;
        }
        let buckets: HashMap<u32, Vec<Ligature>> = collect_ligatures(&shaped, &alone);
        proof {
            found_is_wf(shaped@, alone@, candidates().len() as int);
            assert(shaping_fits(shaped@, alone@));
        }
        self.by_first_char[v] = buckets;
    }

    /// The longest ligature that the cells begin with under a face. A face
    /// without ligatures for the first cell falls back to the regular face's.
    pub fn match_at(&self, cells: &[char], variant: FaceVariant) -> (lig: Option<&Ligature>)
        requires
            self.wf(),
        ensures
            match (lig, bucket_for(self.by_first_char@, cells@, variant)) {
                (Some(l), Some(bucket)) => first_match(bucket, cells@) == Some(l@),
                (Some(_), None) => false,
                (None, Some(bucket)) => first_match(bucket, cells@) is None,
                (None, None) => true,
            },
    {
        if cells.len() == 0 {
            return None;
        }
        let first: u32 = cells[0] as u32;
        let own: Option<&Vec<Ligature>> = self.by_first_char[variant.index()].get(&first);
        let chosen: Option<&Vec<Ligature>> = match own {
            Some(bucket) => Some(bucket),
            None => self.by_first_char[0].get(&first),
        };
        let bucket: &Vec<Ligature> = match chosen {
            Some(bucket) => bucket,
            None => {
                return None;
            },
        };
        let ghost views = ligature_views(bucket@);
        assert(bucket_for(self.by_first_char@, cells@, variant) == Some(views));
        let mut i: usize = 0;
        assert(views.skip(0) =~= views);
        while i < bucket.len()
            invariant
                i <= bucket@.len(),
                views == ligature_views(bucket@),
                bucket_for(self.by_first_char@, cells@, variant) == Some(views),
                first_match(views, cells@) == first_match(views.skip(i as int), cells@),
            decreases bucket@.len() - i,
        {
            proof {
                assert(views.skip(i as int)[0] == bucket@[i as int]@);
                assert(views.skip(i as int).drop_first() =~= views.skip(i + 1));
            }
            if begins_with(cells, &bucket[i].chars) {
                return Some(&bucket[i]);
            }
            i = i + 1;
        }
        None
    }
}

/// Whether a bucket goes from long to short.
pub open spec fn longest_first(bucket: Seq<LigatureView>) -> bool {
    forall|i: int, j: int|
        0 <= i < j < bucket.len() ==> (#[trigger] bucket[i]).chars.len() >= (
        #[trigger] bucket[j]).chars.len()
}

proof fn inserted_is_sorted(bucket: Seq<LigatureView>, lig: LigatureView)
    requires
        longest_first(bucket),
    ensures
        longest_first(inserted(bucket, lig)),
        forall|k: int|
            0 <= k < inserted(bucket, lig).len() ==> (#[trigger] inserted(bucket, lig)[k]) == lig
                || bucket.contains(inserted(bucket, lig)[k]),
        inserted(bucket, lig).contains(lig),
        forall|k: int|
            0 <= k < bucket.len() ==> inserted(bucket, lig).contains(#[trigger] bucket[k]),
        inserted(bucket, lig).len() == bucket.len() + 1,
    decreases bucket.len(),
{
    let out = inserted(bucket, lig);
    if bucket.len() == 0 || bucket.last().chars.len() >= lig.chars.len() {
        assert(out == bucket.push(lig));
        assert(out[bucket.len() as int] == lig);
        assert forall|k: int| 0 <= k < bucket.len() implies out.contains(#[trigger] bucket[k]) by {
            assert(out[k] == bucket[k]);
        }
        assert forall|k: int| 0 <= k < out.len() implies (#[trigger] out[k]) == lig
            || bucket.contains(out[k]) by {
            if k < bucket.len() {
                assert(bucket[k] == out[k]);
            }
        }
    } else {
        let head = bucket.drop_last();
        inserted_is_sorted(head, lig);
        let rest = inserted(head, lig);
        assert(out == rest.push(bucket.last()));
        assert forall|k: int| 0 <= k < out.len() implies (#[trigger] out[k]) == lig
            || bucket.contains(out[k]) by {
            if k < rest.len() {
                assert(out[k] == rest[k]);
                if rest[k] != lig {
                    let j = choose|j: int| 0 <= j < head.len() && head[j] == rest[k];
                    assert(bucket[j] == out[k]);
                }
            } else {
                assert(bucket[bucket.len() - 1] == out[k]);
            }
        }
        assert forall|i: int, j: int| 0 <= i < j < out.len() implies (
        #[trigger] out[i]).chars.len() >= (#[trigger] out[j]).chars.len() by {
            assert(out[i] == rest[i]);
            if j < rest.len() {
                assert(out[j] == rest[j]);
            } else if rest[i] != lig {
                let m = choose|m: int| 0 <= m < head.len() && head[m] == rest[i];
                assert(bucket[m] == rest[i]);
            }
        }
        let at = choose|m: int| 0 <= m < rest.len() && rest[m] == lig;
        assert(out[at] == lig);
        assert forall|k: int| 0 <= k < bucket.len() implies out.contains(#[trigger] bucket[k]) by {
            if k < head.len() {
                assert(rest.contains(head[k]));
                let m = choose|m: int| 0 <= m < rest.len() && rest[m] == head[k];
                assert(out[m] == bucket[k]);
            } else {
                assert(out[rest.len() as int] == bucket[k]);
            }
        }
    }
}

/// A bucket goes from long to short, and holds exactly the found ligatures
/// that start with its character.
pub proof fn bucket_is_sorted(found: Seq<LigatureView>, first: u32)
    ensures
        longest_first(bucket_of(found, first)),
        forall|lig: LigatureView| #[trigger]
            bucket_of(found, first).contains(lig) <==> found.contains(lig) && lig.chars[0] as u32
                == first,
    decreases found.len(),
{
    let bucket = bucket_of(found, first);
    if found.len() == 0 {
        assert(bucket =~= Seq::<LigatureView>::empty());
    } else {
        let head = found.drop_last();
        bucket_is_sorted(head, first);
        let before = bucket_of(head, first);
        inserted_is_sorted(before, found.last());
        assert forall|lig: LigatureView| #[trigger]
            bucket.contains(lig) <==> found.contains(lig) && lig.chars[0] as u32 == first by {
            if bucket.contains(lig) {
                let k = choose|k: int| 0 <= k < bucket.len() && bucket[k] == lig;
                if before.contains(lig) {
                    let j = choose|j: int| 0 <= j < head.len() && head[j] == lig;
                    assert(found[j] == lig);
                } else {
                    assert(found[found.len() - 1] == lig);
                }
            }
            if found.contains(lig) && lig.chars[0] as u32 == first {
                let j = choose|j: int| 0 <= j < found.len() && found[j] == lig;
                if j < head.len() {
                    assert(head[j] == lig);
                    assert(before.contains(lig));
                    let m = choose|m: int| 0 <= m < before.len() && before[m] == lig;
                    assert(before[m] == lig);
                }
            }
        }
    }
}

/// The match in a bucket that goes from long to short is the longest one: no
/// longer ligature of the bucket begins the cells.
pub proof fn match_is_longest(bucket: Seq<LigatureView>, cells: Seq<char>, other: int)
    requires
        longest_first(bucket),
        0 <= other < bucket.len(),
        is_prefix(bucket[other].chars, cells),
    ensures
        first_match(bucket, cells) matches Some(lig) && is_prefix(lig.chars, cells)
            && lig.chars.len() >= bucket[other].chars.len(),
    decreases bucket.len(),
{
    if !is_prefix(bucket[0].chars, cells) {
        let rest = bucket.drop_first();
        assert forall|i: int, j: int| 0 <= i < j < rest.len() implies (
        #[trigger] rest[i]).chars.len() >= (#[trigger] rest[j]).chars.len() by {
            assert(rest[i] == bucket[i + 1] && rest[j] == bucket[j + 1]);
        }
        assert(rest[other - 1] == bucket[other]);
        match_is_longest(rest, cells, other - 1);
    }
}

/// A sequence is a ligature exactly when it has two characters or more, the font
/// gives as many glyphs, none of them is missing, and one of them is not what its
/// character has alone. The ligature then is the sequence with these glyphs.
pub proof fn ligature_substitutes_glyphs(
    chars: Vec<char>,
    shaped: Vec<u32>,
    baseline: &Vec<u32>,
    lig: Option<Ligature>,
)
    requires
        call_ensures(ligature_of, (chars, shaped, baseline), lig),
    ensures
        lig is Some <==> {
            &&& chars@.len() >= 2
            &&& shaped@.len() == chars@.len()
            &&& forall|i: int| 0 <= i < shaped@.len() ==> #[trigger] shaped@[i] != 0
            &&& exists|i: int| 0 <= i < shaped@.len() && #[trigger] shaped@[i] != baseline@[i]
        },
        lig is Some ==> (lig->0).chars@ == chars@ && (lig->0).output_glyphs@ == shaped@,
{
    if chars@.len() >= 2 && shaped@.len() == chars@.len() {
        assert((exists|i: int| 0 <= i < chars@.len() && #[trigger] shaped@[i] != baseline@[i])
            == (exists|i: int| 0 <= i < shaped@.len() && #[trigger] shaped@[i] != baseline@[i]));
        assert((forall|i: int| 0 <= i < chars@.len() ==> #[trigger] shaped@[i] != 0) == (forall|
            i: int,
        | 0 <= i < shaped@.len() ==> #[trigger] shaped@[i] != 0));
    }
}

proof fn insertion_point(bucket: Seq<LigatureView>, lig: LigatureView) -> (at: int)
    ensures
        0 <= at <= bucket.len(),
        inserted(bucket, lig) == bucket.take(at).push(lig) + bucket.skip(at),
        at > 0 ==> bucket[at - 1].chars.len() >= lig.chars.len(),
        forall|k: int|
            at <= k < bucket.len() ==> (#[trigger] bucket[k]).chars.len() < lig.chars.len(),
    decreases bucket.len(),
{
    if bucket.len() == 0 || bucket.last().chars.len() >= lig.chars.len() {
        let at = bucket.len() as int;
        assert(bucket.take(at).push(lig) + bucket.skip(at) =~= bucket.push(lig));
        at
    } else {
        let head = bucket.drop_last();
        let at = insertion_point(head, lig);
        assert(head.take(at) =~= bucket.take(at));
        assert(bucket.skip(at) =~= head.skip(at).push(bucket.last()));
        assert(inserted(bucket, lig) =~= bucket.take(at).push(lig) + bucket.skip(at));
        assert forall|k: int| at <= k < bucket.len() implies (#[trigger] bucket[k]).chars.len()
            < lig.chars.len() by {
            if k < head.len() {
                assert(bucket[k] == head[k]);
            }
        }
        at
    }
}

/// One more ligature goes into the bucket of its first character, behind those
/// that are as long or longer and before the first that is shorter; the other
/// buckets stay. Without ligatures there are no buckets.
pub proof fn ligatures_are_sorted_in_one_by_one(
    found: Vec<Ligature>,
    more: Vec<Ligature>,
    buckets: HashMap<u32, Vec<Ligature>>,
    after: HashMap<u32, Vec<Ligature>>,
    first: u32,
) -> (at: int)
    requires
        call_ensures(bucket_ligatures, (found,), buckets),
        call_ensures(bucket_ligatures, (more,), after),
        more@.len() == found@.len() + 1,
        forall|i: int| 0 <= i < found@.len() ==> (#[trigger] more@[i])@ == found@[i]@,
    ensures
        found@.len() == 0 ==> !buckets@.contains_key(first),
        ({
            let lig = more@.last();
            let here = lig.chars@[0] as u32 == first;
            let old_bucket = buckets@[first]@;
            let new_bucket = after@[first]@;
            let n = if buckets@.contains_key(first) {
                old_bucket.len() as int
            } else {
                0
            };
            &&& !here ==> after@.contains_key(first) == buckets@.contains_key(first)
            &&& !here && buckets@.contains_key(first) ==> new_bucket.len() == n && (forall|k: int|
                0 <= k < n ==> (#[trigger] new_bucket[k])@ == old_bucket[k]@)
            &&& here ==> {
                &&& after@.contains_key(first)
                &&& 0 <= at <= n
                &&& new_bucket.len() == n + 1
                &&& new_bucket[at]@ == lig@
                &&& forall|k: int| 0 <= k < at ==> (#[trigger] new_bucket[k])@ == old_bucket[k]@
                &&& forall|k: int|
                    at < k < n + 1 ==> (#[trigger] new_bucket[k])@ == old_bucket[k - 1]@
                        && new_bucket[k].chars@.len() < lig.chars@.len()
                &&& at > 0 ==> new_bucket[at - 1].chars@.len() >= lig.chars@.len()
            }
        }),
{
    let lig = more@.last();
    let all = ligature_views(more@);
    assert(all.drop_last() =~= ligature_views(found@));
    assert(all.last() == lig@);
    let old_views = bucket_of(ligature_views(found@), first);
    let new_views = bucket_of(all, first);
    assert(buckets@.contains_key(first) || !buckets@.contains_key(first));
    assert(after@.contains_key(first) || !after@.contains_key(first));
    let at = insertion_point(old_views, lig@);
    if after@.contains_key(first) {
        assert forall|k: int| 0 <= k < after@[first]@.len() implies (#[trigger] after@[first]@[k])@
            == new_views[k] by {
            assert(ligature_views(after@[first]@)[k] == new_views[k]);
        }
    }
    if buckets@.contains_key(first) {
        assert forall|k: int|
            0 <= k < buckets@[first]@.len() implies (#[trigger] buckets@[first]@[k])@
            == old_views[k] by {
            assert(ligature_views(buckets@[first]@)[k] == old_views[k]);
        }
    }
    if lig.chars@[0] as u32 == first {
        assert(new_views == old_views.take(at).push(lig@) + old_views.skip(at));
        inserted_is_longer(old_views, lig@);
        let new_bucket = after@[first]@;
        assert forall|k: int| at < k < old_views.len() + 1 implies (#[trigger] new_bucket[k])@
            == old_views[k - 1] && new_bucket[k].chars@.len() < lig.chars@.len() by {
            assert(new_views[k] == old_views[k - 1]);
            assert(new_bucket[k]@.chars == new_bucket[k].chars@);
        }
        if at > 0 {
            assert(new_views[at - 1] == old_views[at - 1]);
            assert(new_bucket[at - 1]@.chars == new_bucket[at - 1].chars@);
        }
        assert forall|k: int| at < k < old_views.len() + 1 implies (#[trigger] new_bucket[k])@
            == buckets@[first]@[k - 1]@ by {
            assert(buckets@[first]@[k - 1]@ == old_views[k - 1]);
        }
    }
    at
}

/// The match is the first ligature of the bucket that the cells begin with, out of
/// the face's own bucket for the first cell, or the regular face's where it has
/// none.
pub proof fn match_is_the_first_that_fits(
    shaper: &Shaper,
    cells: &[char],
    variant: FaceVariant,
    lig: Option<&Ligature>,
    own: Map<u32, Vec<Ligature>>,
    bucket: Seq<Ligature>,
)
    requires
        call_ensures(Shaper::match_at, (shaper, cells, variant), lig),
        variant is Regular ==> own == shaper.by_first_char@[0]@,
        variant is Bold ==> own == shaper.by_first_char@[1]@,
        variant is Italic ==> own == shaper.by_first_char@[2]@,
        variant is BoldItalic ==> own == shaper.by_first_char@[3]@,
        own.contains_key(cells@[0] as u32) ==> bucket == own[cells@[0] as u32]@,
        !own.contains_key(cells@[0] as u32) ==> bucket
            == shaper.by_first_char@[0]@[cells@[0] as u32]@,
    ensures
        ({
            let first = cells@[0] as u32;
            let any = cells@.len() > 0 && (own.contains_key(first)
                || shaper.by_first_char@[0]@.contains_key(first));
            &&& !any ==> lig is None
            &&& any && lig is None ==> forall|k: int|
                0 <= k < bucket.len() ==> !(#[trigger] bucket[k]).chars@.is_prefix_of(cells@)
            &&& lig is Some ==> any && exists|k: int|
                {
                    &&& 0 <= k < bucket.len()
                    &&& (#[trigger] bucket[k])@ == (lig->0)@
                    &&& bucket[k].chars@.is_prefix_of(cells@)
                    &&& forall|j: int|
                        0 <= j < k ==> !(#[trigger] bucket[j]).chars@.is_prefix_of(cells@)
                }
        }),
{
    let first = cells@[0] as u32;
    if cells@.len() > 0 && (own.contains_key(first) || shaper.by_first_char@[0]@.contains_key(
        first,
    )) {
        let views = ligature_views(bucket);
        assert(bucket_for(shaper.by_first_char@, cells@, variant) == Some(views));
        let k = first_match_is_first(views, cells@);
        assert forall|j: int| 0 <= j < bucket.len() implies (
        #[trigger] bucket[j]).chars@.is_prefix_of(cells@) == is_prefix(views[j].chars, cells@) by {
            assert(views[j] == bucket[j]@);
        }
        if lig is Some {
            assert(bucket[k]@ == views[k]);
        }
    }
}

proof fn first_match_is_first(bucket: Seq<LigatureView>, cells: Seq<char>) -> (at: int)
    ensures
        0 <= at <= bucket.len(),
        first_match(bucket, cells) is Some <==> at < bucket.len(),
        at < bucket.len() ==> first_match(bucket, cells) == Some(bucket[at]) && is_prefix(
            bucket[at].chars,
            cells,
        ),
        forall|j: int| 0 <= j < at ==> !is_prefix((#[trigger] bucket[j]).chars, cells),
    decreases bucket.len(),
{
    if bucket.len() == 0 || is_prefix(bucket[0].chars, cells) {
        0
    } else {
        let rest = bucket.drop_first();
        let at = first_match_is_first(rest, cells) + 1;
        assert forall|j: int| 0 <= j < at implies !is_prefix((#[trigger] bucket[j]).chars, cells) by {
            if j > 0 {
                assert(bucket[j] == rest[j - 1]);
            }
        }
        at
    }
}

proof fn found_is_what_fits(shaped: Seq<Vec<u32>>, alone: Seq<Vec<Vec<u32>>>, n: int, lig: LigatureView)
    requires
        0 <= n <= candidates().len(),
    ensures
        found_among(shaped, alone, n).contains(lig) <==> exists|k: int|
            0 <= k < n && ligature_from(
                (#[trigger] candidates()[k])@,
                shaped[k]@,
                first_of_each(alone[k]@),
            ) == Some(lig),
    decreases n,
{
    let all = found_among(shaped, alone, n);
    if n > 0 {
        found_is_what_fits(shaped, alone, n - 1, lig);
        let before = found_among(shaped, alone, n - 1);
        let here = ligature_from(
            candidates()[n - 1]@,
            shaped[n - 1]@,
            first_of_each(alone[n - 1]@),
        );
        if all.contains(lig) {
            let j = choose|j: int| 0 <= j < all.len() && all[j] == lig;
            if j < before.len() {
                assert(before[j] == lig);
                assert(before.contains(lig));
            } else {
                assert(here == Some(lig));
            }
        }
        if here == Some(lig) {
            assert(all[before.len() as int] == lig);
        } else if before.contains(lig) {
            let j = choose|j: int| 0 <= j < before.len() && before[j] == lig;
            assert(all[j] == lig);
        }
    }
}

/// The lookup of a face holds a ligature under its first character exactly when it
/// is a candidate for which the font gives one glyph for each character, none of
/// them missing, and one that is not the first glyph of its character alone.
pub proof fn lookup_holds_the_substituted_candidates(
    shaped: &Vec<Vec<u32>>,
    alone: &Vec<Vec<Vec<u32>>>,
    texts: Vec<String>,
    buckets: HashMap<u32, Vec<Ligature>>,
    lig: LigatureView,
    first: u32,
)
    requires
        call_ensures(collect_ligatures, (shaped, alone), buckets),
        call_ensures(candidate_texts, (), texts),
        shaping_fits(shaped@, alone@),
    ensures
        (buckets@.contains_key(first) && exists|i: int|
            0 <= i < buckets@[first]@.len() && (#[trigger] buckets@[first]@[i])@ == lig) <==> exists|
            k: int,
        |
            {
                &&& 0 <= k < texts@.len()
                &&& (#[trigger] texts@[k])@ == lig.chars
                &&& lig.chars.len() >= 2
                &&& lig.chars[0] as u32 == first
                &&& shaped@[k]@ == lig.output_glyphs
                &&& lig.output_glyphs.len() == lig.chars.len()
                &&& forall|i: int|
                    0 <= i < lig.chars.len() ==> #[trigger] lig.output_glyphs[i] != 0
                &&& exists|i: int|
                    0 <= i < lig.chars.len() && #[trigger] lig.output_glyphs[i] != (if alone@[k]@[i]@.len()
                        > 0 {
                        alone@[k]@[i]@[0]
                    } else {
                        0
                    })
            },
{
    let n = candidates().len() as int;
    let found = found_among(shaped@, alone@, n);
    found_is_what_fits(shaped@, alone@, n, lig);
    bucket_is_sorted(found, first);
    let views = bucket_of(found, first);
    assert(buckets@.contains_key(first) || !buckets@.contains_key(first));
    if buckets@.contains_key(first) {
        let bucket = buckets@[first]@;
        assert(ligature_views(bucket) == views);
        if exists|i: int| 0 <= i < bucket.len() && (#[trigger] bucket[i])@ == lig {
            let i = choose|i: int| 0 <= i < bucket.len() && (#[trigger] bucket[i])@ == lig;
            assert(views[i] == lig);
            assert(views.contains(lig));
        }
        if views.contains(lig) {
            let i = choose|i: int| 0 <= i < views.len() && views[i] == lig;
            assert(bucket[i]@ == lig);
        }
    }
    assert(views.contains(lig) <==> found.contains(lig) && lig.chars[0] as u32 == first);
    if views.contains(lig) {
        let k = choose|k: int|
            0 <= k < n && ligature_from(
                (#[trigger] candidates()[k])@,
                shaped@[k]@,
                first_of_each(alone@[k]@),
            ) == Some(lig);
        assert(texts@[k]@ == lig.chars);
        let i = choose|i: int|
            0 <= i < lig.chars.len() && #[trigger] shaped@[k]@[i] != first_of_each(alone@[k]@)[i];
        assert(lig.output_glyphs[i] != first_of_each(alone@[k]@)[i]);
    }
    assert forall|k: int|
        {
            &&& 0 <= k < texts@.len()
            &&& (#[trigger] texts@[k])@ == lig.chars
            &&& lig.chars.len() >= 2
            &&& lig.chars[0] as u32 == first
            &&& shaped@[k]@ == lig.output_glyphs
            &&& lig.output_glyphs.len() == lig.chars.len()
            &&& forall|i: int| 0 <= i < lig.chars.len() ==> #[trigger] lig.output_glyphs[i] != 0
            &&& exists|i: int|
                0 <= i < lig.chars.len() && #[trigger] lig.output_glyphs[i] != (if alone@[k]@[i]@.len()
                    > 0 {
                    alone@[k]@[i]@[0]
                } else {
                    0
                })
        } implies views.contains(lig) by {
        let i = choose|i: int|
            0 <= i < lig.chars.len() && #[trigger] lig.output_glyphs[i] != (if alone@[k]@[i]@.len()
                > 0 {
                alone@[k]@[i]@[0]
            } else {
                0
            });
        assert(candidates()[k]@ == lig.chars);
        assert(shaped@[k]@[i] != first_of_each(alone@[k]@)[i]);
        assert(ligature_from(candidates()[k]@, shaped@[k]@, first_of_each(alone@[k]@)) == Some(lig));
        assert(found.contains(lig));
    }
}

/// The faces have the places regular, bold, italic, and bold and italic.
pub proof fn faces_have_their_places(regular: usize, bold: usize, italic: usize, both: usize)
    requires
        call_ensures(FaceVariant::index, (FaceVariant::Regular,), regular),
        call_ensures(FaceVariant::index, (FaceVariant::Bold,), bold),
        call_ensures(FaceVariant::index, (FaceVariant::Italic,), italic),
        call_ensures(FaceVariant::index, (FaceVariant::BoldItalic,), both),
    ensures
        regular == 0 && bold == 1 && italic == 2 && both == 3,
{
}

/// The candidates are arrows, comparisons, and the other operators and brackets of
/// two to five marks that fonts draw as one.
pub proof fn candidates_are_operators(texts: Vec<String>)
    requires
        call_ensures(candidate_texts, (), texts),
    ensures
        texts@.map_values((|t: String| t@)) == seq![
            "->"@, "<-"@, "<->"@, "-->"@, "<--"@, "<-->"@, "<-<"@, ">->"@, "<<-"@, "->>"@,
            "->>>"@, "<<<-"@, "-<"@, ">-"@, "-<<"@, ">>-"@,
        ] + seq![
            "=>"@, "<="@, "==>"@, "<=="@, "<==>"@, "=>>"@, "<<="@, ">>="@, "<=>"@, "=<<"@,
            "<<<<"@, ">>>>"@, "<<<"@, ">>>"@, "<<"@, ">>"@,
        ] + seq![
            "~>"@, "<~"@, "<~>"@, "~~>"@, "<~~"@, "~~"@, "~~~"@, "=="@, "!="@, "==="@, "!=="@,
            "<="@, ">="@, "=/="@, "/="@, "&&"@, "||"@, "&&&"@, "|||"@,
        ] + seq![
            "++"@, "--"@, "+++"@, "---"@, "**"@, "***"@, "+="@, "-="@, "*="@, "/="@, "%="@,
            "|="@, "&="@, "^="@,
        ] + seq![
            "|>"@, "<|"@, "<|>"@, "<$"@, "$>"@, "<$>"@, "<*"@, "*>"@, "<*>"@, "<+"@, "+>"@,
            "<+>"@, "<>"@, "<*-*>"@,
        ] + seq![
            "::"@, ":::"@, ":="@, "::="@, "<:"@, ":>"@, "//"@, "///"@, "//="@, "/*"@, "*/"@,
            "/**"@, "##"@, "###"@, "####"@, "#!"@, "#="@, "#_"@,
        ] + seq![
            "??"@, "?."@, "?:"@, ".."@, "..."@, "..="@, "..<"@, "~="@, "~@"@, "~-"@, "_|_"@,
            "<>"@, "<%"@, "%>"@, "@<"@, "@>"@, "</>"@, "</"@, "/>"@,
        ],
{
    assert(texts@.map_values((|t: String| t@)) =~= candidates().map_values(
        (|t: &'static str| t@),
    ));
}

/// A shaper starts without fonts and ligatures. Installing a font takes its bytes and
/// its place in the file for its own face, and changes no other face and no lookup.
pub proof fn font_goes_to_its_face(
    fresh: Shaper,
    shaper: &mut Shaper,
    variant: FaceVariant,
    data: &[u8],
    face_index: u32,
    installed: bool,
    place: int,
    v: int,
)
    requires
        call_ensures(Shaper::new, (), fresh),
        call_ensures(Shaper::set_variant, (shaper, variant, data, face_index), installed),
        variant is Regular ==> place == 0,
        variant is Bold ==> place == 1,
        variant is Italic ==> place == 2,
        variant is BoldItalic ==> place == 3,
        0 <= v < 4,
    ensures
        installed,
        fresh.fonts@.len() == 4 && fresh.fonts@[v] is None,
        fresh.by_first_char@.len() == 4,
        fresh.by_first_char@[v]@ == Map::<u32, Vec<Ligature>>::empty(),
        final(shaper).fonts@.len() == 4,
        final(shaper).fonts@[place] is Some,
        (final(shaper).fonts@[place]->0).data@ == data@,
        (final(shaper).fonts@[place]->0).face_index == face_index,
        v != place ==> final(shaper).fonts@[v] == old(shaper).fonts@[v],
        final(shaper).by_first_char == old(shaper).by_first_char,
{
}

/// Looking for ligatures fills the lookup of the face alone, and only where it has a
/// font: with candidates of two characters or more, each under its first character
/// and with a glyph for each of its characters.
pub proof fn lookup_is_filled_with_candidates(
    shaper: &mut Shaper,
    variant: FaceVariant,
    texts: Vec<String>,
    place: int,
    v: int,
    first: u32,
    i: int,
)
    requires
        call_ensures(Shaper::precompute, (shaper, variant), ()),
        call_ensures(candidate_texts, (), texts),
        variant is Regular ==> place == 0,
        variant is Bold ==> place == 1,
        variant is Italic ==> place == 2,
        variant is BoldItalic ==> place == 3,
        0 <= v < 4,
    ensures
        final(shaper).fonts == old(shaper).fonts,
        v != place || old(shaper).fonts@[v] is None ==> final(shaper).by_first_char@[v]
            == old(shaper).by_first_char@[v],
        old(shaper).fonts@[place] is Some && final(shaper).by_first_char@[place]@.contains_key(
            first,
        ) && 0 <= i < final(shaper).by_first_char@[place]@[first]@.len() ==> ({
            let lig = final(shaper).by_first_char@[place]@[first]@[i];
            &&& lig.chars@.len() >= 2
            &&& lig.output_glyphs@.len() == lig.chars@.len()
            &&& lig.chars@[0] as u32 == first
            &&& exists|k: int| 0 <= k < texts@.len() && (#[trigger] texts@[k])@ == lig.chars@
        }),
{
    let buckets = final(shaper).by_first_char@[place]@;
    if old(shaper).fonts@[place] is Some && buckets.contains_key(first) && 0 <= i
        < buckets[first]@.len() {
        let (shaped, alone) = choose|shaped: Seq<Vec<u32>>, alone: Seq<Vec<Vec<u32>>>|
            #[trigger]
            shaping_fits(shaped, alone) && buckets_hold(
                buckets,
                found_among(shaped, alone, candidates().len() as int),
            );
        let found = found_among(shaped, alone, candidates().len() as int);
        found_is_wf(shaped, alone, candidates().len() as int);
        bucket_is_sorted(found, first);
        let views = bucket_of(found, first);
        let lig = buckets[first]@[i];
        assert(ligature_views(buckets[first]@) == views);
        assert(views[i] == lig@);
        assert(views.contains(lig@));
        let j = choose|j: int| 0 <= j < found.len() && found[j] == lig@;
        assert(ligature_wf(found[j]) && from_candidates(found[j]));
        let k = choose|k: int|
            0 <= k < candidates().len() && (#[trigger] candidates()[k])@ == lig@.chars;
        assert(texts@[k]@ == lig.chars@);
    }
}

} // verus!
