use vstd::prelude::*;
use vstd::utf8::encode_utf8;

use crate::color::{from_str, record_color, Color, ColorError};

verus! {

/// Why a palette could not be built.
#[derive(Clone, Copy, Debug, PartialEq, Eq, Structural)]
pub enum PaletteError {
    /// The record at index `line` (counted from 0) is not a `#RRGGBB` color.
    MalformedColor { line: usize, reason: ColorError },
    /// There is no color to match against.
    EmptyPalette,
}

/// What a line of a colors file reads as.
pub open spec fn line_color(line: String) -> Result<Color, ColorError> {
    record_color(encode_utf8(line@))
}

/// Every line in `lines` is a well-formed color record.
pub open spec fn all_lines_valid(lines: Seq<String>) -> bool {
    forall|i: int| 0 <= i < lines.len() ==> (#[trigger] line_color(lines[i])) is Ok
}

/// `k` is the index of the first malformed line in `lines`.
pub open spec fn is_first_malformed(lines: Seq<String>, k: int) -> bool {
    &&& 0 <= k < lines.len()
    &&& line_color(lines[k]) is Err
    &&& forall|j: int| 0 <= j < k ==> (#[trigger] line_color(lines[j])) is Ok
}

/// `colors` holds, in order, the color of each line of `lines`.
pub open spec fn colors_of_lines(lines: Seq<String>, colors: Seq<Color>) -> bool {
    &&& colors.len() == lines.len()
    &&& forall|i: int| 0 <= i < lines.len() ==> #[trigger] line_color(lines[i]) == Ok::<
        Color,
        ColorError,
    >(colors[i])
}

/// The outcome of reading `lines` as color records.
pub open spec fn lines_outcome(lines: Seq<String>, r: Result<Vec<Color>, PaletteError>) -> bool {
    &&& r is Ok <==> all_lines_valid(lines)
    &&& r is Ok ==> colors_of_lines(lines, r->Ok_0@)
    &&& r is Err ==> malformed_reported(lines, r->Err_0)
}

/// `e` reports the first malformed line of `lines`, with why it is malformed.
pub open spec fn malformed_reported(lines: Seq<String>, e: PaletteError) -> bool {
    &&& e is MalformedColor
    &&& is_first_malformed(lines, e->line as int)
    &&& e->reason == line_color(lines[e->line as int])->Err_0
}

/// Reads each line as a `#RRGGBB` record, in order. The first malformed line
/// stops the reading and is reported with its index; no colors are returned then.
pub fn parse_colors(lines: &Vec<String>) -> (r: Result<Vec<Color>, PaletteError>)
    ensures
        lines_outcome(lines@, r),
{
    let mut colors: Vec<Color> = Vec::new();
    let mut i: usize = 0;
    while i < lines.len()
        invariant
            0 <= i <= lines@.len(),
            colors@.len() == i,
            forall|j: int| 0 <= j < i ==> #[trigger] line_color(lines@[j]) == Ok::<
                Color,
                ColorError,
            >(colors@[j]),
        decreases lines@.len() - i,
    {
        let c = from_str(lines[i].as_str());
        match c {
            Ok(color) => {
                colors.push(color);
            },
            Err(reason) => {
                assert(is_first_malformed(lines@, i as int));
                return Err(PaletteError::MalformedColor { line: i, reason });
            },
        }
        i = i + 1;
    }
    Ok(colors)
}

/// A non-empty, ordered list of colors to match pixels against.
pub struct Palette {
    colors: Vec<Color>,
}

impl View for Palette {
    type V = Seq<Color>;

    closed spec fn view(&self) -> Seq<Color> {
        self.colors@
    }
}

impl Palette {
    /// A palette holds at least one color.
    pub open spec fn wf(&self) -> bool {
        self@.len() > 0
    }

    /// Takes `colors` as a palette, in the order given; an empty list is refused.
    pub fn new(colors: Vec<Color>) -> (r: Result<Palette, PaletteError>)
        ensures
            r is Ok <==> colors@.len() > 0,
            colors@.len() == 0 ==> r == Err::<Palette, PaletteError>(PaletteError::EmptyPalette),
            r is Ok ==> r->Ok_0@ == colors@ && r->Ok_0.wf(),
    {
        if colors.len() == 0 {
            Err(PaletteError::EmptyPalette)
        } else {
            Ok(Palette { colors })
        }
    }

    /// Number of colors.
    pub fn len(&self) -> (r: usize)
        ensures
            r == self@.len(),
    {
        self.colors.len()
    }

    /// The color at index `i`.
    pub fn get(&self, i: usize) -> (r: Color)
        requires
            i < self@.len(),
        ensures
            r == self@[i as int],
    {
        self.colors[i]
    }

    /// The colors, in palette order.
    pub fn colors(&self) -> (r: &Vec<Color>)
        ensures
            r@ == self@,
    {
        &self.colors
    }
}

/// Reads a palette from the lines of a colors file: every line must be a
/// `#RRGGBB` record, and there must be at least one.
pub fn parse_palette(lines: &Vec<String>) -> (r: Result<Palette, PaletteError>)
    ensures
        r is Ok <==> all_lines_valid(lines@) && lines@.len() > 0,
        r is Ok ==> r->Ok_0.wf() && colors_of_lines(lines@, r->Ok_0@),
        all_lines_valid(lines@) && lines@.len() == 0 ==> r == Err::<Palette, PaletteError>(
            PaletteError::EmptyPalette,
        ),
        !all_lines_valid(lines@) ==> r is Err && malformed_reported(lines@, r->Err_0),
{
    match parse_colors(lines) {
        Ok(colors) => Palette::new(colors),
        Err(e) => Err(e),
    }
}

} // verus!
