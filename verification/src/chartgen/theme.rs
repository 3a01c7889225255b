use vstd::prelude::*;

verus! {

/// The surface of a chart.
pub const BG: &'static str = "#101010";

/// Primary ink.
pub const TEXT: &'static str = "#f2f4f8";

/// Secondary ink.
pub const MUTED: &'static str = "#b6b8bb";

/// Tertiary ink.
pub const FAINT: &'static str = "#838383";

/// Hairline.
pub const BORDER: &'static str = "#2a2a2a";

/// Emphasised hairline.
pub const BORDER_STRONG: &'static str = "#3a3a3a";

/// The colour of the hero.
pub const HERO: &'static str = "#1fae61";

/// The fill of the other bars.
pub const NEUTRAL: &'static str = "#3a3a3a";

/// The hairline of the other bars.
pub const NEUTRAL_EDGE: &'static str = "#4a4a4a";

/// The font and what stands in for it.
pub const FONT: &'static str = "'Berkeley Mono', ui-monospace, 'SF Mono', Menlo, monospace";

/// The weight of all text.
pub const WEIGHT: u32 = 400;

/// Turns ligatures on.
pub const FONT_FEATURES: &'static str = "font-feature-settings:'liga' 1,'calt' 1";

/// How many series a chart can tell apart by colour. Colours are never used twice
/// in a chart: where there are more series, there are more charts.
pub const SERIES_COUNT: usize = 5;

/// The colours of the series of a chart, in their order.
pub open spec fn colour_of(i: int) -> Seq<char> {
    if i == 0 {
        HERO@
    } else if i == 1 {
        "#e8630f"@
    } else if i == 2 {
        "#4589ff"@
    } else if i == 3 {
        "#d02670"@
    } else {
        "#a56eff"@
    }
}

/// The colour of series number `i` of a chart.
pub fn series_colour(i: usize) -> (r: &'static str)
    requires
        i < SERIES_COUNT,
    ensures
        r@ == colour_of(i as int),
{
    if i == 0 {
        HERO
    } else if i == 1 {
        "#e8630f"
    } else if i == 2 {
        "#4589ff"
    } else if i == 3 {
        "#d02670"
    } else {
        "#a56eff"
    }
}

/// No two series of a chart have the same colour.
pub proof fn law_colours_are_distinct(i: int, j: int)
    requires
        0 <= i < j < SERIES_COUNT,
    ensures
        colour_of(i) != colour_of(j),
{
    reveal_strlit("#1fae61");
    reveal_strlit("#e8630f");
    reveal_strlit("#4589ff");
    reveal_strlit("#d02670");
    reveal_strlit("#a56eff");
    assert(colour_of(i)[1] != colour_of(j)[1] || colour_of(i)[2] != colour_of(j)[2]);
}

/// The fill and the ink of a bar.
pub fn bar_colours(hero: bool) -> (r: (&'static str, &'static str))
    ensures
        r.0@ == if hero {
            HERO@
        } else {
            NEUTRAL@
        },
        r.1@ == if hero {
            TEXT@
        } else {
            MUTED@
        },
{
    if hero {
        (HERO, TEXT)
    } else {
        (NEUTRAL, MUTED)
    }
}

/// The first series has the colour of the hero, and so has the bar of the hero, in ink of
/// its own; all other bars look alike.
pub proof fn law_the_hero_stands_out(
    first: &'static str,
    hero: (&'static str, &'static str),
    other: (&'static str, &'static str),
)
    requires
        call_ensures(series_colour, (0usize,), first),
        call_ensures(bar_colours, (true,), hero),
        call_ensures(bar_colours, (false,), other),
    ensures
        first@ == HERO@,
        hero.0@ == HERO@ && hero.1@ == TEXT@,
        other.0@ == NEUTRAL@ && other.1@ == MUTED@,
        hero.0@ != other.0@,
{
    reveal_strlit("#1fae61");
    reveal_strlit("#3a3a3a");
    assert(hero.0@[1] != other.0@[1]);
}

} // verus!
