//! Palettes: the colours that a terminal offers, by number.

use vstd::prelude::*;
use crate::color::triplet::ColortripletRaw;

verus! {

/// A palette of available colours; a colour's number is its place in it.
pub struct Palette {
    colors: Vec<ColortripletRaw>,
}

/// The square of the distance between two colours in RGB space.
pub open spec fn color_distance(a: ColortripletRaw, b: ColortripletRaw) -> int {
    (a.0 - b.0) * (a.0 - b.0) + (a.1 - b.1) * (a.1 - b.1) + (a.2 - b.2) * (a.2 - b.2)
}

/// Whether `i` is the first colour of `colors` that is as near to `color` as
/// any.
pub open spec fn is_nearest(colors: Seq<ColortripletRaw>, color: ColortripletRaw, i: int) -> bool {
    &&& 0 <= i < colors.len()
    &&& forall|j: int|
        0 <= j < colors.len() ==> color_distance(color, colors[i]) <= color_distance(
            color,
            #[trigger] colors[j],
        )
    &&& forall|j: int|
        0 <= j < i ==> color_distance(color, colors[i]) < color_distance(color, #[trigger] colors[j])
}

/// The distance between two colours, squared.
pub fn distance(a: ColortripletRaw, b: ColortripletRaw) -> (d: i32)
    ensures
        d == color_distance(a, b),
        0 <= d <= 3 * 255 * 255,
{
    let red: i32 = a.0 as i32 - b.0 as i32;
    let green: i32 = a.1 as i32 - b.1 as i32;
    let blue: i32 = a.2 as i32 - b.2 as i32;
    assert(0 <= red * red <= 255 * 255) by (nonlinear_arith)
        requires
            -255 <= red <= 255,
    ;
    assert(0 <= green * green <= 255 * 255) by (nonlinear_arith)
        requires
            -255 <= green <= 255,
    ;
    assert(0 <= blue * blue <= 255 * 255) by (nonlinear_arith)
        requires
            -255 <= blue <= 255,
    ;
    red * red + green * green + blue * blue
}

impl View for Palette {
    type V = Seq<ColortripletRaw>;

    closed spec fn view(&self) -> Seq<ColortripletRaw> {
        self.colors@
    }
}

impl Palette {
    /// A palette of the given colours.
    pub fn new(colors: Vec<ColortripletRaw>) -> (palette: Self)
        ensures
            palette@ == colors@,
    {
        Palette { colors }
    }

    /// A palette of the given colours.
    pub fn from_vec_of_colors(colors: Vec<ColortripletRaw>) -> (palette: Self)
        ensures
            palette@ == colors@,
    {
        Palette { colors }
    }

    /// The number of colours.
    pub fn len(&self) -> (n: usize)
        ensures
            n == self@.len(),
    {
        self.colors.len()
    }

    /// The colour with the given number.
    pub fn get(&self, index: usize) -> (color: ColortripletRaw)
        requires
            index < self@.len(),
        ensures
            color == self@[index as int],
    {
        self.colors[index]
    }

    /// The number of the colour that is nearest to `color`, the first of
    /// them where several are equally near; `None` for an empty palette.
    pub fn match_color(&self, color: ColortripletRaw) -> (found: Option<usize>)
        ensures
            self@.len() == 0 <==> found is None,
            found matches Some(i) ==> is_nearest(self@, color, i as int),
    {
        nearest_color(self.colors.as_slice(), color)
    }
}

/// In a palette at most one colour is the first of the nearest.
pub proof fn lemma_nearest_unique(colors: Seq<ColortripletRaw>, color: ColortripletRaw, i: int, j: int)
    requires
        is_nearest(colors, color, i),
        is_nearest(colors, color, j),
    ensures
        i == j,
{
    if i < j {
        assert(color_distance(color, colors[j]) < color_distance(color, colors[i]));
    } else if j < i {
        assert(color_distance(color, colors[i]) < color_distance(color, colors[j]));
    }
}

/// The number of the colour of `colors` that is nearest to `color`.
pub open spec fn nearest_index(colors: Seq<ColortripletRaw>, color: ColortripletRaw) -> int {
    choose|i: int| is_nearest(colors, color, i)
}

/// The number of the colour of `colors` that is nearest to `color`, the
/// first of them where several are equally near; `None` where there is no
/// colour at all.
pub fn nearest_color(colors: &[ColortripletRaw], color: ColortripletRaw) -> (found: Option<usize>)
    ensures
        colors@.len() == 0 <==> found is None,
        found matches Some(i) ==> is_nearest(colors@, color, i as int) && i == nearest_index(
            colors@,
            color,
        ),
{
    if colors.len() == 0 {
        return None;
    }
    let mut best: usize = 0;
    let mut best_distance: i32 = distance(color, colors[0]);
    let mut i: usize = 1;
    while i < colors.len()
        invariant
            1 <= i <= colors@.len(),
            best < i,
            best_distance == color_distance(color, colors@[best as int]),
            forall|j: int|
                0 <= j < i ==> best_distance <= color_distance(color, #[trigger] colors@[j]),
            forall|j: int|
                0 <= j < best ==> best_distance < color_distance(color, #[trigger] colors@[j]),
        decreases colors@.len() - i,
    {
        let d = distance(color, colors[i]);
        if d < best_distance {
            best = i;
            best_distance = d;
        }
        i = i + 1;
    }
    proof {
        lemma_nearest_unique(colors@, color, best as int, nearest_index(colors@, color));
    }
    Some(best)
}

} // verus!
