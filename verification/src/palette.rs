//! The fixed named-color palette and the pixel classifier.
//!
//! The palette is a fixed table of 63 named colors. Its canonical enumeration
//! order is alphabetical by name (ASCII order); every tie-break below refers
//! to this order. A pixel with alpha 0 classifies as the reserved name
//! `"Transparent"`; any other pixel classifies as the palette entry nearest
//! to its RGB value by squared Euclidean distance, an exact match being at
//! distance zero and therefore always preferred.
use vstd::prelude::*;

verus! {

/// One RGBA pixel, as read from a decoded image.
#[derive(Clone, Copy, PartialEq, Eq, Structural, Debug)]
pub struct Pixel {
    pub r: u8,
    pub g: u8,
    pub b: u8,
    pub a: u8,
}

/// Number of entries in the palette table.
pub const PALETTE_LEN: usize = 63;

/// The reserved name returned for fully transparent pixels.
pub open spec fn transparent_name() -> Seq<char> {
    "Transparent"@
}

/// The RGB triple of a pixel, its alpha dropped.
pub open spec fn rgb_of(p: Pixel) -> (u8, u8, u8) {
    (p.r, p.g, p.b)
}

pub open spec fn palette_name(i: int) -> Seq<char> {
    if i == 0 { "Beige"@
    } else if i == 1 { "Black"@
    } else if i == 2 { "Blue"@
    } else if i == 3 { "Brown"@
    } else if i == 4 { "Cyan"@
    } else if i == 5 { "Dark Beige"@
    } else if i == 6 { "Dark Blue"@
    } else if i == 7 { "Dark Brown"@
    } else if i == 8 { "Dark Cyan"@
    } else if i == 9 { "Dark Goldenrod"@
    } else if i == 10 { "Dark Gray"@
    } else if i == 11 { "Dark Green"@
    } else if i == 12 { "Dark Indigo"@
    } else if i == 13 { "Dark Olive"@
    } else if i == 14 { "Dark Orange"@
    } else if i == 15 { "Dark Peach"@
    } else if i == 16 { "Dark Pink"@
    } else if i == 17 { "Dark Purple"@
    } else if i == 18 { "Dark Red"@
    } else if i == 19 { "Dark Slate"@
    } else if i == 20 { "Dark Slate Blue"@
    } else if i == 21 { "Dark Stone"@
    } else if i == 22 { "Dark Tan"@
    } else if i == 23 { "Dark Teal"@
    } else if i == 24 { "Deep Red"@
    } else if i == 25 { "Gold"@
    } else if i == 26 { "Goldenrod"@
    } else if i == 27 { "Gray"@
    } else if i == 28 { "Green"@
    } else if i == 29 { "Indigo"@
    } else if i == 30 { "Light Beige"@
    } else if i == 31 { "Light Blue"@
    } else if i == 32 { "Light Brown"@
    } else if i == 33 { "Light Cyan"@
    } else if i == 34 { "Light Goldenrod"@
    } else if i == 35 { "Light Gray"@
    } else if i == 36 { "Light Green"@
    } else if i == 37 { "Light Indigo"@
    } else if i == 38 { "Light Olive"@
    } else if i == 39 { "Light Peach"@
    } else if i == 40 { "Light Pink"@
    } else if i == 41 { "Light Purple"@
    } else if i == 42 { "Light Red"@
    } else if i == 43 { "Light Slate"@
    } else if i == 44 { "Light Slate Blue"@
    } else if i == 45 { "Light Stone"@
    } else if i == 46 { "Light Tan"@
    } else if i == 47 { "Light Teal"@
    } else if i == 48 { "Light Yellow"@
    } else if i == 49 { "Medium Gray"@
    } else if i == 50 { "Olive"@
    } else if i == 51 { "Orange"@
    } else if i == 52 { "Peach"@
    } else if i == 53 { "Pink"@
    } else if i == 54 { "Purple"@
    } else if i == 55 { "Red"@
    } else if i == 56 { "Slate"@
    } else if i == 57 { "Slate Blue"@
    } else if i == 58 { "Stone"@
    } else if i == 59 { "Tan"@
    } else if i == 60 { "Teal"@
    } else if i == 61 { "White"@
    } else { "Yellow"@
    }
}

pub open spec fn palette_rgb(i: int) -> (u8, u8, u8) {
    if i == 0 { (248u8, 178u8, 119u8)
    } else if i == 1 { (0u8, 0u8, 0u8)
    } else if i == 2 { (64u8, 147u8, 228u8)
    } else if i == 3 { (149u8, 104u8, 42u8)
    } else if i == 4 { (96u8, 247u8, 242u8)
    } else if i == 5 { (209u8, 128u8, 81u8)
    } else if i == 6 { (40u8, 80u8, 158u8)
    } else if i == 7 { (104u8, 70u8, 52u8)
    } else if i == 8 { (15u8, 121u8, 159u8)
    } else if i == 9 { (156u8, 132u8, 49u8)
    } else if i == 10 { (60u8, 60u8, 60u8)
    } else if i == 11 { (14u8, 185u8, 104u8)
    } else if i == 12 { (77u8, 49u8, 184u8)
    } else if i == 13 { (74u8, 107u8, 58u8)
    } else if i == 14 { (228u8, 92u8, 26u8)
    } else if i == 15 { (155u8, 82u8, 73u8)
    } else if i == 16 { (203u8, 0u8, 122u8)
    } else if i == 17 { (120u8, 12u8, 153u8)
    } else if i == 18 { (165u8, 14u8, 30u8)
    } else if i == 19 { (51u8, 57u8, 65u8)
    } else if i == 20 { (74u8, 66u8, 132u8)
    } else if i == 21 { (109u8, 100u8, 63u8)
    } else if i == 22 { (123u8, 99u8, 82u8)
    } else if i == 23 { (12u8, 129u8, 110u8)
    } else if i == 24 { (96u8, 0u8, 24u8)
    } else if i == 25 { (246u8, 170u8, 9u8)
    } else if i == 26 { (197u8, 173u8, 49u8)
    } else if i == 27 { (120u8, 120u8, 120u8)
    } else if i == 28 { (19u8, 230u8, 123u8)
    } else if i == 29 { (107u8, 80u8, 246u8)
    } else if i == 30 { (255u8, 197u8, 165u8)
    } else if i == 31 { (125u8, 199u8, 255u8)
    } else if i == 32 { (219u8, 164u8, 99u8)
    } else if i == 33 { (187u8, 250u8, 242u8)
    } else if i == 34 { (232u8, 212u8, 95u8)
    } else if i == 35 { (210u8, 210u8, 210u8)
    } else if i == 36 { (135u8, 255u8, 94u8)
    } else if i == 37 { (153u8, 177u8, 251u8)
    } else if i == 38 { (132u8, 197u8, 115u8)
    } else if i == 39 { (250u8, 182u8, 164u8)
    } else if i == 40 { (243u8, 141u8, 169u8)
    } else if i == 41 { (224u8, 159u8, 249u8)
    } else if i == 42 { (250u8, 128u8, 114u8)
    } else if i == 43 { (179u8, 185u8, 209u8)
    } else if i == 44 { (181u8, 174u8, 241u8)
    } else if i == 45 { (205u8, 197u8, 158u8)
    } else if i == 46 { (214u8, 181u8, 148u8)
    } else if i == 47 { (19u8, 225u8, 190u8)
    } else if i == 48 { (255u8, 250u8, 188u8)
    } else if i == 49 { (170u8, 170u8, 170u8)
    } else if i == 50 { (90u8, 148u8, 74u8)
    } else if i == 51 { (255u8, 127u8, 39u8)
    } else if i == 52 { (209u8, 128u8, 120u8)
    } else if i == 53 { (236u8, 31u8, 128u8)
    } else if i == 54 { (170u8, 56u8, 185u8)
    } else if i == 55 { (237u8, 28u8, 36u8)
    } else if i == 56 { (109u8, 117u8, 141u8)
    } else if i == 57 { (122u8, 113u8, 196u8)
    } else if i == 58 { (148u8, 140u8, 107u8)
    } else if i == 59 { (156u8, 132u8, 107u8)
    } else if i == 60 { (16u8, 174u8, 166u8)
    } else if i == 61 { (255u8, 255u8, 255u8)
    } else { (249u8, 221u8, 59u8)
    }
}

pub open spec fn palette_index_of_rgb(rgb: (u8, u8, u8)) -> int {
    if rgb == (248u8, 178u8, 119u8) { 0
    } else if rgb == (0u8, 0u8, 0u8) { 1
    } else if rgb == (64u8, 147u8, 228u8) { 2
    } else if rgb == (149u8, 104u8, 42u8) { 3
    } else if rgb == (96u8, 247u8, 242u8) { 4
    } else if rgb == (209u8, 128u8, 81u8) { 5
    } else if rgb == (40u8, 80u8, 158u8) { 6
    } else if rgb == (104u8, 70u8, 52u8) { 7
    } else if rgb == (15u8, 121u8, 159u8) { 8
    } else if rgb == (156u8, 132u8, 49u8) { 9
    } else if rgb == (60u8, 60u8, 60u8) { 10
    } else if rgb == (14u8, 185u8, 104u8) { 11
    } else if rgb == (77u8, 49u8, 184u8) { 12
    } else if rgb == (74u8, 107u8, 58u8) { 13
    } else if rgb == (228u8, 92u8, 26u8) { 14
    } else if rgb == (155u8, 82u8, 73u8) { 15
    } else if rgb == (203u8, 0u8, 122u8) { 16
    } else if rgb == (120u8, 12u8, 153u8) { 17
    } else if rgb == (165u8, 14u8, 30u8) { 18
    } else if rgb == (51u8, 57u8, 65u8) { 19
    } else if rgb == (74u8, 66u8, 132u8) { 20
    } else if rgb == (109u8, 100u8, 63u8) { 21
    } else if rgb == (123u8, 99u8, 82u8) { 22
    } else if rgb == (12u8, 129u8, 110u8) { 23
    } else if rgb == (96u8, 0u8, 24u8) { 24
    } else if rgb == (246u8, 170u8, 9u8) { 25
    } else if rgb == (197u8, 173u8, 49u8) { 26
    } else if rgb == (120u8, 120u8, 120u8) { 27
    } else if rgb == (19u8, 230u8, 123u8) { 28
    } else if rgb == (107u8, 80u8, 246u8) { 29
    } else if rgb == (255u8, 197u8, 165u8) { 30
    } else if rgb == (125u8, 199u8, 255u8) { 31
    } else if rgb == (219u8, 164u8, 99u8) { 32
    } else if rgb == (187u8, 250u8, 242u8) { 33
    } else if rgb == (232u8, 212u8, 95u8) { 34
    } else if rgb == (210u8, 210u8, 210u8) { 35
    } else if rgb == (135u8, 255u8, 94u8) { 36
    } else if rgb == (153u8, 177u8, 251u8) { 37
    } else if rgb == (132u8, 197u8, 115u8) { 38
    } else if rgb == (250u8, 182u8, 164u8) { 39
    } else if rgb == (243u8, 141u8, 169u8) { 40
    } else if rgb == (224u8, 159u8, 249u8) { 41
    } else if rgb == (250u8, 128u8, 114u8) { 42
    } else if rgb == (179u8, 185u8, 209u8) { 43
    } else if rgb == (181u8, 174u8, 241u8) { 44
    } else if rgb == (205u8, 197u8, 158u8) { 45
    } else if rgb == (214u8, 181u8, 148u8) { 46
    } else if rgb == (19u8, 225u8, 190u8) { 47
    } else if rgb == (255u8, 250u8, 188u8) { 48
    } else if rgb == (170u8, 170u8, 170u8) { 49
    } else if rgb == (90u8, 148u8, 74u8) { 50
    } else if rgb == (255u8, 127u8, 39u8) { 51
    } else if rgb == (209u8, 128u8, 120u8) { 52
    } else if rgb == (236u8, 31u8, 128u8) { 53
    } else if rgb == (170u8, 56u8, 185u8) { 54
    } else if rgb == (237u8, 28u8, 36u8) { 55
    } else if rgb == (109u8, 117u8, 141u8) { 56
    } else if rgb == (122u8, 113u8, 196u8) { 57
    } else if rgb == (148u8, 140u8, 107u8) { 58
    } else if rgb == (156u8, 132u8, 107u8) { 59
    } else if rgb == (16u8, 174u8, 166u8) { 60
    } else if rgb == (255u8, 255u8, 255u8) { 61
    } else { 62
    }
}

/// The palette entry at index `i` of the canonical (alphabetical) order.
pub fn palette_entry(i: usize) -> (e: (&'static str, (u8, u8, u8)))
    requires
        i < PALETTE_LEN,
    ensures
        e.0@ == palette_name(i as int),
        e.1 == palette_rgb(i as int),
{
    if i == 0 { ("Beige", (248u8, 178u8, 119u8))
    } else if i == 1 { ("Black", (0u8, 0u8, 0u8))
    } else if i == 2 { ("Blue", (64u8, 147u8, 228u8))
    } else if i == 3 { ("Brown", (149u8, 104u8, 42u8))
    } else if i == 4 { ("Cyan", (96u8, 247u8, 242u8))
    } else if i == 5 { ("Dark Beige", (209u8, 128u8, 81u8))
    } else if i == 6 { ("Dark Blue", (40u8, 80u8, 158u8))
    } else if i == 7 { ("Dark Brown", (104u8, 70u8, 52u8))
    } else if i == 8 { ("Dark Cyan", (15u8, 121u8, 159u8))
    } else if i == 9 { ("Dark Goldenrod", (156u8, 132u8, 49u8))
    } else if i == 10 { ("Dark Gray", (60u8, 60u8, 60u8))
    } else if i == 11 { ("Dark Green", (14u8, 185u8, 104u8))
    } else if i == 12 { ("Dark Indigo", (77u8, 49u8, 184u8))
    } else if i == 13 { ("Dark Olive", (74u8, 107u8, 58u8))
    } else if i == 14 { ("Dark Orange", (228u8, 92u8, 26u8))
    } else if i == 15 { ("Dark Peach", (155u8, 82u8, 73u8))
    } else if i == 16 { ("Dark Pink", (203u8, 0u8, 122u8))
    } else if i == 17 { ("Dark Purple", (120u8, 12u8, 153u8))
    } else if i == 18 { ("Dark Red", (165u8, 14u8, 30u8))
    } else if i == 19 { ("Dark Slate", (51u8, 57u8, 65u8))
    } else if i == 20 { ("Dark Slate Blue", (74u8, 66u8, 132u8))
    } else if i == 21 { ("Dark Stone", (109u8, 100u8, 63u8))
    } else if i == 22 { ("Dark Tan", (123u8, 99u8, 82u8))
    } else if i == 23 { ("Dark Teal", (12u8, 129u8, 110u8))
    } else if i == 24 { ("Deep Red", (96u8, 0u8, 24u8))
    } else if i == 25 { ("Gold", (246u8, 170u8, 9u8))
    } else if i == 26 { ("Goldenrod", (197u8, 173u8, 49u8))
    } else if i == 27 { ("Gray", (120u8, 120u8, 120u8))
    } else if i == 28 { ("Green", (19u8, 230u8, 123u8))
    } else if i == 29 { ("Indigo", (107u8, 80u8, 246u8))
    } else if i == 30 { ("Light Beige", (255u8, 197u8, 165u8))
    } else if i == 31 { ("Light Blue", (125u8, 199u8, 255u8))
    } else if i == 32 { ("Light Brown", (219u8, 164u8, 99u8))
    } else if i == 33 { ("Light Cyan", (187u8, 250u8, 242u8))
    } else if i == 34 { ("Light Goldenrod", (232u8, 212u8, 95u8))
    } else if i == 35 { ("Light Gray", (210u8, 210u8, 210u8))
    } else if i == 36 { ("Light Green", (135u8, 255u8, 94u8))
    } else if i == 37 { ("Light Indigo", (153u8, 177u8, 251u8))
    } else if i == 38 { ("Light Olive", (132u8, 197u8, 115u8))
    } else if i == 39 { ("Light Peach", (250u8, 182u8, 164u8))
    } else if i == 40 { ("Light Pink", (243u8, 141u8, 169u8))
    } else if i == 41 { ("Light Purple", (224u8, 159u8, 249u8))
    } else if i == 42 { ("Light Red", (250u8, 128u8, 114u8))
    } else if i == 43 { ("Light Slate", (179u8, 185u8, 209u8))
    } else if i == 44 { ("Light Slate Blue", (181u8, 174u8, 241u8))
    } else if i == 45 { ("Light Stone", (205u8, 197u8, 158u8))
    } else if i == 46 { ("Light Tan", (214u8, 181u8, 148u8))
    } else if i == 47 { ("Light Teal", (19u8, 225u8, 190u8))
    } else if i == 48 { ("Light Yellow", (255u8, 250u8, 188u8))
    } else if i == 49 { ("Medium Gray", (170u8, 170u8, 170u8))
    } else if i == 50 { ("Olive", (90u8, 148u8, 74u8))
    } else if i == 51 { ("Orange", (255u8, 127u8, 39u8))
    } else if i == 52 { ("Peach", (209u8, 128u8, 120u8))
    } else if i == 53 { ("Pink", (236u8, 31u8, 128u8))
    } else if i == 54 { ("Purple", (170u8, 56u8, 185u8))
    } else if i == 55 { ("Red", (237u8, 28u8, 36u8))
    } else if i == 56 { ("Slate", (109u8, 117u8, 141u8))
    } else if i == 57 { ("Slate Blue", (122u8, 113u8, 196u8))
    } else if i == 58 { ("Stone", (148u8, 140u8, 107u8))
    } else if i == 59 { ("Tan", (156u8, 132u8, 107u8))
    } else if i == 60 { ("Teal", (16u8, 174u8, 166u8))
    } else if i == 61 { ("White", (255u8, 255u8, 255u8))
    } else { ("Yellow", (249u8, 221u8, 59u8))
    }
}
/// Squared Euclidean distance between two RGB triples.
pub open spec fn color_dist(c1: (u8, u8, u8), c2: (u8, u8, u8)) -> int {
    (c1.0 - c2.0) * (c1.0 - c2.0) + (c1.1 - c2.1) * (c1.1 - c2.1) + (c1.2 - c2.2) * (c1.2
        - c2.2)
}

/// Strict lexicographic order on character sequences.
pub open spec fn lex_lt(a: Seq<char>, b: Seq<char>) -> bool
    decreases a.len(),
{
    if b.len() == 0 {
        false
    } else if a.len() == 0 {
        true
    } else if a[0] != b[0] {
        a[0] < b[0]
    } else {
        lex_lt(a.drop_first(), b.drop_first())
    }
}

/// The index of the palette entry nearest to `rgb` among the first `n`
/// entries; on distance ties the lowest index wins.
pub open spec fn classify_upto(rgb: (u8, u8, u8), n: int) -> int
    decreases n,
{
    if n <= 1 {
        0
    } else {
        let prev = classify_upto(rgb, n - 1);
        if color_dist(rgb, palette_rgb(n - 1)) < color_dist(rgb, palette_rgb(prev)) {
            n - 1
        } else {
            prev
        }
    }
}

/// The palette index a non-transparent pixel of this RGB value classifies to.
pub open spec fn classify_rgb(rgb: (u8, u8, u8)) -> int {
    classify_upto(rgb, PALETTE_LEN as int)
}

proof fn lemma_names_adjacent_0()
    ensures
        forall|k: int| 0 <= k < 16 ==> lex_lt(#[trigger] palette_name(k), palette_name(k + 1)),
{
    reveal_with_fuel(lex_lt, 16);
    reveal_strlit("Beige");
    reveal_strlit("Black");
    reveal_strlit("Blue");
    reveal_strlit("Brown");
    reveal_strlit("Cyan");
    reveal_strlit("Dark Beige");
    reveal_strlit("Dark Blue");
    reveal_strlit("Dark Brown");
    reveal_strlit("Dark Cyan");
    reveal_strlit("Dark Goldenrod");
    reveal_strlit("Dark Gray");
    reveal_strlit("Dark Green");
    reveal_strlit("Dark Indigo");
    reveal_strlit("Dark Olive");
    reveal_strlit("Dark Orange");
    reveal_strlit("Dark Peach");
    reveal_strlit("Dark Pink");
    assert forall|k: int| 0 <= k < 16 implies lex_lt(#[trigger] palette_name(k), palette_name(k + 1)) by {
        if k == 0 {
            assert(lex_lt(palette_name(0), palette_name(1)));
        } else if k == 1 {
            assert(lex_lt(palette_name(1), palette_name(2)));
        } else if k == 2 {
            assert(lex_lt(palette_name(2), palette_name(3)));
        } else if k == 3 {
            assert(lex_lt(palette_name(3), palette_name(4)));
        } else if k == 4 {
            assert(lex_lt(palette_name(4), palette_name(5)));
        } else if k == 5 {
            assert(lex_lt(palette_name(5), palette_name(6)));
        } else if k == 6 {
            assert(lex_lt(palette_name(6), palette_name(7)));
        } else if k == 7 {
            assert(lex_lt(palette_name(7), palette_name(8)));
        } else if k == 8 {
            assert(lex_lt(palette_name(8), palette_name(9)));
        } else if k == 9 {
            assert(lex_lt(palette_name(9), palette_name(10)));
        } else if k == 10 {
            assert(lex_lt(palette_name(10), palette_name(11)));
        } else if k == 11 {
            assert(lex_lt(palette_name(11), palette_name(12)));
        } else if k == 12 {
            assert(lex_lt(palette_name(12), palette_name(13)));
        } else if k == 13 {
            assert(lex_lt(palette_name(13), palette_name(14)));
        } else if k == 14 {
            assert(lex_lt(palette_name(14), palette_name(15)));
        } else {
            assert(lex_lt(palette_name(15), palette_name(16)));
        }
    }
}

proof fn lemma_names_adjacent_1()
    ensures
        forall|k: int| 16 <= k < 32 ==> lex_lt(#[trigger] palette_name(k), palette_name(k + 1)),
{
    reveal_with_fuel(lex_lt, 16);
    reveal_strlit("Dark Pink");
    reveal_strlit("Dark Purple");
    reveal_strlit("Dark Red");
    reveal_strlit("Dark Slate");
    reveal_strlit("Dark Slate Blue");
    reveal_strlit("Dark Stone");
    reveal_strlit("Dark Tan");
    reveal_strlit("Dark Teal");
    reveal_strlit("Deep Red");
    reveal_strlit("Gold");
    reveal_strlit("Goldenrod");
    reveal_strlit("Gray");
    reveal_strlit("Green");
    reveal_strlit("Indigo");
    reveal_strlit("Light Beige");
    reveal_strlit("Light Blue");
    reveal_strlit("Light Brown");
    assert forall|k: int| 16 <= k < 32 implies lex_lt(#[trigger] palette_name(k), palette_name(k + 1)) by {
        if k == 16 {
            assert(lex_lt(palette_name(16), palette_name(17)));
        } else if k == 17 {
            assert(lex_lt(palette_name(17), palette_name(18)));
        } else if k == 18 {
            assert(lex_lt(palette_name(18), palette_name(19)));
        } else if k == 19 {
            assert(lex_lt(palette_name(19), palette_name(20)));
        } else if k == 20 {
            assert(lex_lt(palette_name(20), palette_name(21)));
        } else if k == 21 {
            assert(lex_lt(palette_name(21), palette_name(22)));
        } else if k == 22 {
            assert(lex_lt(palette_name(22), palette_name(23)));
        } else if k == 23 {
            assert(lex_lt(palette_name(23), palette_name(24)));
        } else if k == 24 {
            assert(lex_lt(palette_name(24), palette_name(25)));
        } else if k == 25 {
            assert(lex_lt(palette_name(25), palette_name(26)));
        } else if k == 26 {
            assert(lex_lt(palette_name(26), palette_name(27)));
        } else if k == 27 {
            assert(lex_lt(palette_name(27), palette_name(28)));
        } else if k == 28 {
            assert(lex_lt(palette_name(28), palette_name(29)));
        } else if k == 29 {
            assert(lex_lt(palette_name(29), palette_name(30)));
        } else if k == 30 {
            assert(lex_lt(palette_name(30), palette_name(31)));
        } else {
            assert(lex_lt(palette_name(31), palette_name(32)));
        }
    }
}

proof fn lemma_names_adjacent_2()
    ensures
        forall|k: int| 32 <= k < 48 ==> lex_lt(#[trigger] palette_name(k), palette_name(k + 1)),
{
    reveal_with_fuel(lex_lt, 16);
    reveal_strlit("Light Brown");
    reveal_strlit("Light Cyan");
    reveal_strlit("Light Goldenrod");
    reveal_strlit("Light Gray");
    reveal_strlit("Light Green");
    reveal_strlit("Light Indigo");
    reveal_strlit("Light Olive");
    reveal_strlit("Light Peach");
    reveal_strlit("Light Pink");
    reveal_strlit("Light Purple");
    reveal_strlit("Light Red");
    reveal_strlit("Light Slate");
    reveal_strlit("Light Slate Blue");
    reveal_strlit("Light Stone");
    reveal_strlit("Light Tan");
    reveal_strlit("Light Teal");
    reveal_strlit("Light Yellow");
    assert forall|k: int| 32 <= k < 48 implies lex_lt(#[trigger] palette_name(k), palette_name(k + 1)) by {
        if k == 32 {
            assert(lex_lt(palette_name(32), palette_name(33)));
        } else if k == 33 {
            assert(lex_lt(palette_name(33), palette_name(34)));
        } else if k == 34 {
            assert(lex_lt(palette_name(34), palette_name(35)));
        } else if k == 35 {
            assert(lex_lt(palette_name(35), palette_name(36)));
        } else if k == 36 {
            assert(lex_lt(palette_name(36), palette_name(37)));
        } else if k == 37 {
            assert(lex_lt(palette_name(37), palette_name(38)));
        } else if k == 38 {
            assert(lex_lt(palette_name(38), palette_name(39)));
        } else if k == 39 {
            assert(lex_lt(palette_name(39), palette_name(40)));
        } else if k == 40 {
            assert(lex_lt(palette_name(40), palette_name(41)));
        } else if k == 41 {
            assert(lex_lt(palette_name(41), palette_name(42)));
        } else if k == 42 {
            assert(lex_lt(palette_name(42), palette_name(43)));
        } else if k == 43 {
            assert(lex_lt(palette_name(43), palette_name(44)));
        } else if k == 44 {
            assert(lex_lt(palette_name(44), palette_name(45)));
        } else if k == 45 {
            assert(lex_lt(palette_name(45), palette_name(46)));
        } else if k == 46 {
            assert(lex_lt(palette_name(46), palette_name(47)));
        } else {
            assert(lex_lt(palette_name(47), palette_name(48)));
        }
    }
}

proof fn lemma_names_adjacent_3()
    ensures
        forall|k: int| 48 <= k < 62 ==> lex_lt(#[trigger] palette_name(k), palette_name(k + 1)),
{
    reveal_with_fuel(lex_lt, 16);
    reveal_strlit("Light Yellow");
    reveal_strlit("Medium Gray");
    reveal_strlit("Olive");
    reveal_strlit("Orange");
    reveal_strlit("Peach");
    reveal_strlit("Pink");
    reveal_strlit("Purple");
    reveal_strlit("Red");
    reveal_strlit("Slate");
    reveal_strlit("Slate Blue");
    reveal_strlit("Stone");
    reveal_strlit("Tan");
    reveal_strlit("Teal");
    reveal_strlit("White");
    reveal_strlit("Yellow");
    assert forall|k: int| 48 <= k < 62 implies lex_lt(#[trigger] palette_name(k), palette_name(k + 1)) by {
        if k == 48 {
            assert(lex_lt(palette_name(48), palette_name(49)));
        } else if k == 49 {
            assert(lex_lt(palette_name(49), palette_name(50)));
        } else if k == 50 {
            assert(lex_lt(palette_name(50), palette_name(51)));
        } else if k == 51 {
            assert(lex_lt(palette_name(51), palette_name(52)));
        } else if k == 52 {
            assert(lex_lt(palette_name(52), palette_name(53)));
        } else if k == 53 {
            assert(lex_lt(palette_name(53), palette_name(54)));
        } else if k == 54 {
            assert(lex_lt(palette_name(54), palette_name(55)));
        } else if k == 55 {
            assert(lex_lt(palette_name(55), palette_name(56)));
        } else if k == 56 {
            assert(lex_lt(palette_name(56), palette_name(57)));
        } else if k == 57 {
            assert(lex_lt(palette_name(57), palette_name(58)));
        } else if k == 58 {
            assert(lex_lt(palette_name(58), palette_name(59)));
        } else if k == 59 {
            assert(lex_lt(palette_name(59), palette_name(60)));
        } else if k == 60 {
            assert(lex_lt(palette_name(60), palette_name(61)));
        } else {
            assert(lex_lt(palette_name(61), palette_name(62)));
        }
    }
}

proof fn lemma_color_dist_nonneg(c1: (u8, u8, u8), c2: (u8, u8, u8))
    ensures
        color_dist(c1, c2) >= 0,
{
    assert((c1.0 - c2.0) * (c1.0 - c2.0) >= 0) by (nonlinear_arith);
    assert((c1.1 - c2.1) * (c1.1 - c2.1) >= 0) by (nonlinear_arith);
    assert((c1.2 - c2.2) * (c1.2 - c2.2) >= 0) by (nonlinear_arith);
}

proof fn lemma_color_dist_zero(c1: (u8, u8, u8), c2: (u8, u8, u8))
    ensures
        color_dist(c1, c2) == 0 <==> c1 == c2,
{
    assert((c1.0 - c2.0) * (c1.0 - c2.0) >= 0) by (nonlinear_arith);
    assert((c1.1 - c2.1) * (c1.1 - c2.1) >= 0) by (nonlinear_arith);
    assert((c1.2 - c2.2) * (c1.2 - c2.2) >= 0) by (nonlinear_arith);
    assert((c1.0 - c2.0) * (c1.0 - c2.0) == 0 ==> c1.0 == c2.0) by (nonlinear_arith);
    assert((c1.1 - c2.1) * (c1.1 - c2.1) == 0 ==> c1.1 == c2.1) by (nonlinear_arith);
    assert((c1.2 - c2.2) * (c1.2 - c2.2) == 0 ==> c1.2 == c2.2) by (nonlinear_arith);
    if color_dist(c1, c2) == 0 {
        assert(c1.0 == c2.0 && c1.1 == c2.1 && c1.2 == c2.2);
        assert(c1 =~= c2);
    }
    if c1 == c2 {
        assert((c1.0 - c2.0) * (c1.0 - c2.0) == 0) by (nonlinear_arith)
            requires
                c1.0 == c2.0,
        ;
        assert((c1.1 - c2.1) * (c1.1 - c2.1) == 0) by (nonlinear_arith)
            requires
                c1.1 == c2.1,
        ;
        assert((c1.2 - c2.2) * (c1.2 - c2.2) == 0) by (nonlinear_arith)
            requires
                c1.2 == c2.2,
        ;
    }
}

proof fn lemma_palette_rgb_injective()
    ensures
        forall|i: int|
            0 <= i < PALETTE_LEN ==> #[trigger] palette_index_of_rgb(palette_rgb(i)) == i,
{
}

proof fn lemma_classify_upto_props(rgb: (u8, u8, u8), n: int)
    requires
        1 <= n <= PALETTE_LEN,
    ensures
        0 <= classify_upto(rgb, n) < n,
        forall|j: int|
            0 <= j < n ==> color_dist(rgb, palette_rgb(classify_upto(rgb, n))) <= color_dist(
                rgb,
                #[trigger] palette_rgb(j),
            ),
        forall|j: int|
            0 <= j < classify_upto(rgb, n) ==> color_dist(rgb, #[trigger] palette_rgb(j))
                > color_dist(rgb, palette_rgb(classify_upto(rgb, n))),
    decreases n,
{
    if n > 1 {
        lemma_classify_upto_props(rgb, n - 1);
    }
}

/// Nearest-neighbor law: classification picks a palette index whose distance
/// to the given RGB value is minimal over the whole table, and no strictly
/// earlier index achieves that minimal distance.
pub proof fn lemma_classify_nearest(rgb: (u8, u8, u8))
    ensures
        0 <= classify_rgb(rgb) < PALETTE_LEN,
        forall|j: int|
            0 <= j < PALETTE_LEN ==> color_dist(rgb, palette_rgb(classify_rgb(rgb))) <= color_dist(
                rgb,
                #[trigger] palette_rgb(j),
            ),
        forall|j: int|
            0 <= j < classify_rgb(rgb) ==> color_dist(rgb, #[trigger] palette_rgb(j)) > color_dist(
                rgb,
                palette_rgb(classify_rgb(rgb)),
            ),
{
    lemma_classify_upto_props(rgb, PALETTE_LEN as int);
}

/// Exactness law: the RGB value of a palette entry classifies to that very
/// entry; no two entries share an RGB triple.
pub proof fn lemma_classify_exact(i: int)
    requires
        0 <= i < PALETTE_LEN,
    ensures
        classify_rgb(palette_rgb(i)) == i,
{
    let rgb = palette_rgb(i);
    let c = classify_rgb(rgb);
    lemma_classify_nearest(rgb);
    lemma_color_dist_zero(rgb, rgb);
    lemma_color_dist_nonneg(rgb, palette_rgb(c));
    lemma_color_dist_zero(rgb, palette_rgb(c));
    lemma_palette_rgb_injective();
    assert(palette_index_of_rgb(palette_rgb(c)) == c);
    assert(palette_index_of_rgb(palette_rgb(i)) == i);
}

pub(crate) proof fn lemma_lex_lt_trans(a: Seq<char>, b: Seq<char>, c: Seq<char>)
    requires
        lex_lt(a, b),
        lex_lt(b, c),
    ensures
        lex_lt(a, c),
    decreases a.len(),
{
    if a.len() == 0 {
    } else if a[0] == b[0] && b[0] == c[0] {
        lemma_lex_lt_trans(a.drop_first(), b.drop_first(), c.drop_first());
    }
}

proof fn lemma_lex_lt_total(a: Seq<char>, b: Seq<char>)
    requires
        !lex_lt(a, b),
        !lex_lt(b, a),
    ensures
        a == b,
    decreases a.len(),
{
    if a.len() == 0 {
        assert(a =~= b);
    } else {
        lemma_lex_lt_total(a.drop_first(), b.drop_first());
        assert forall|k: int| 0 <= k < a.len() implies a[k] == b[k] by {
            if k > 0 {
                assert(a.drop_first()[k - 1] == a[k]);
                assert(b.drop_first()[k - 1] == b[k]);
            }
        }
        assert(a =~= b);
    }
}

proof fn lemma_lex_lt_irrefl(a: Seq<char>)
    ensures
        !lex_lt(a, a),
    decreases a.len(),
{
    if a.len() > 0 {
        lemma_lex_lt_irrefl(a.drop_first());
    }
}

/// The strict lexicographic order is total on distinct sequences: exactly
/// one of `lex_lt(a, b)`, `lex_lt(b, a)`, `a == b` holds.
pub proof fn lemma_lex_lt_order(a: Seq<char>, b: Seq<char>)
    ensures
        lex_lt(a, b) || lex_lt(b, a) || a == b,
        lex_lt(a, b) ==> !lex_lt(b, a) && a != b,
{
    if !lex_lt(a, b) && !lex_lt(b, a) {
        lemma_lex_lt_total(a, b);
    }
    if lex_lt(a, b) && lex_lt(b, a) {
        lemma_lex_lt_trans(a, b, a);
        lemma_lex_lt_irrefl(a);
    }
    if lex_lt(a, b) {
        lemma_lex_lt_irrefl(a);
        if a == b {
            assert(false);
        }
    }
}

proof fn lemma_names_sorted_pair(i: int, j: int)
    requires
        0 <= i < j < PALETTE_LEN,
    ensures
        lex_lt(palette_name(i), palette_name(j)),
    decreases j - i,
{
    lemma_names_adjacent_0();
    lemma_names_adjacent_1();
    lemma_names_adjacent_2();
    lemma_names_adjacent_3();
    if j > i + 1 {
        lemma_names_sorted_pair(i, j - 1);
        lemma_lex_lt_trans(palette_name(i), palette_name(j - 1), palette_name(j));
    }
}

/// The palette's canonical enumeration order is alphabetical: names are
/// strictly increasing in table order, so in particular they are distinct.
pub proof fn lemma_palette_names_sorted()
    ensures
        forall|i: int, j: int|
            0 <= i < j < PALETTE_LEN ==> lex_lt(#[trigger] palette_name(i), #[trigger] palette_name(j)),
{
    assert forall|i: int, j: int|
        0 <= i < j < PALETTE_LEN implies lex_lt(
        #[trigger] palette_name(i),
        #[trigger] palette_name(j),
    ) by {
        lemma_names_sorted_pair(i, j);
    }
}

/// Computes the squared Euclidean distance between two RGB triples.
pub fn color_distance(c1: (u8, u8, u8), c2: (u8, u8, u8)) -> (d: u32)
    ensures
        d == color_dist(c1, c2),
{
    let dr: i32 = c1.0 as i32 - c2.0 as i32;
    let dg: i32 = c1.1 as i32 - c2.1 as i32;
    let db: i32 = c1.2 as i32 - c2.2 as i32;
    proof {
        assert(0 <= dr * dr <= 255 * 255) by (nonlinear_arith)
            requires
                -255 <= dr <= 255,
        ;
        assert(0 <= dg * dg <= 255 * 255) by (nonlinear_arith)
            requires
                -255 <= dg <= 255,
        ;
        assert(0 <= db * db <= 255 * 255) by (nonlinear_arith)
            requires
                -255 <= db <= 255,
        ;
    }
    (dr * dr + dg * dg + db * db) as u32
}

/// Finds the index of the palette entry nearest to `rgb` by a linear scan of
/// the table, keeping the earliest entry on distance ties.
pub fn classify_index(rgb: (u8, u8, u8)) -> (i: usize)
    ensures
        i < PALETTE_LEN,
        i as int == classify_rgb(rgb),
{
    let mut best: usize = 0;
    let mut best_dist: u32 = color_distance(rgb, palette_entry(0).1);
    let mut i: usize = 1;
    while i < PALETTE_LEN
        invariant
            1 <= i <= PALETTE_LEN,
            best < i,
            best as int == classify_upto(rgb, i as int),
            best_dist == color_dist(rgb, palette_rgb(best as int)),
        decreases PALETTE_LEN - i,
    {
        let d = color_distance(rgb, palette_entry(i).1);
        if d < best_dist {
            best = i;
            best_dist = d;
        }
        i = i + 1;
    }
    best
}

/// Classifies one pixel: `"Transparent"` if its alpha is 0, otherwise the
/// name of the nearest palette entry (ties broken by canonical table order).
pub fn find_color_name(pixel: Pixel) -> (name: &'static str)
    ensures
        pixel.a == 0 ==> name@ == transparent_name(),
        pixel.a != 0 ==> name@ == palette_name(classify_rgb(rgb_of(pixel))),
{
    if pixel.a == 0 {
        return "Transparent";
    }
    let i = classify_index((pixel.r, pixel.g, pixel.b));
    palette_entry(i).0
}

} // verus!
