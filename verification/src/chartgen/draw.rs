use vstd::prelude::*;

use crate::chartgen::charts;
use crate::chartgen::charts::Better;
use crate::chartgen::svg;
use crate::chartgen::svg::{Anchor, Svg};
use crate::chartgen::text;
use crate::chartgen::theme;

verus! {

/// The length of the longest of the texts `labels`, in characters.
pub open spec fn widest_of(labels: Seq<Seq<char>>) -> nat
    decreases labels.len(),
{
    if labels.len() == 0 {
        0
    } else {
        let rest = widest_of(labels.drop_last());
        if labels.last().len() > rest {
            labels.last().len()
        } else {
            rest
        }
    }
}

/// None of the texts is longer than the longest, and one of them is as long.
pub proof fn law_the_widest_is_the_longest(labels: Seq<Seq<char>>)
    ensures
        forall|i: int|
            0 <= i < labels.len() ==> (#[trigger] labels[i]).len() <= widest_of(labels),
        labels.len() > 0 ==> exists|i: int|
            0 <= i < labels.len() && (#[trigger] labels[i]).len() == widest_of(labels),
        labels.len() == 0 ==> widest_of(labels) == 0,
    decreases labels.len(),
{
    if labels.len() > 0 {
        let init = labels.drop_last();
        law_the_widest_is_the_longest(init);
        assert forall|i: int| 0 <= i < labels.len() implies (#[trigger] labels[i]).len()
            <= widest_of(labels) by {
            if i < init.len() {
                assert(init[i].len() <= widest_of(init));
            }
        }
        if labels.last().len() == widest_of(labels) {
            assert(labels[labels.len() - 1].len() == widest_of(labels));
        } else {
            let i = choose|i: int| 0 <= i < init.len() && (#[trigger] init[i]).len() == widest_of(
                init,
            );
            assert(labels[i].len() == widest_of(labels));
        }
    }
}

/// The length of the longest of the texts `labels`, in characters.
pub fn widest(labels: &Vec<String>) -> (r: usize)
    ensures
        r == widest_of(labels@.map_values(|l: String| l@)),
{
    let ghost all = labels@.map_values(|l: String| l@);
    let mut r: usize = 0;
    let mut i: usize = 0;
    assert(all.take(0) =~= Seq::<Seq<char>>::empty());
    while i < labels.len()
        invariant
            i <= labels@.len(),
            all == labels@.map_values(|l: String| l@),
            r == widest_of(all.take(i as int)),
        decreases labels@.len() - i,
    {
        assert(all.take(i + 1).drop_last() =~= all.take(i as int));
        let len: usize = labels[i].as_str().unicode_len();
        if len > r {
            r = len;
        }
        i = i + 1;
    }
    assert(all.take(i as int) =~= all);
    r
}

/// A mark on an axis: where it is, and what it says. Numbers are written with
/// two decimals, here and in what follows.
pub struct Tick {
    /// Where the line of the mark runs.
    pub at: String,
    /// Where its text stands, on the other axis or a little off the line.
    pub label_at: String,
    pub label: String,
}

/// Where the parts of a bar are.
pub struct BarMark {
    pub label: String,
    /// The value, as it is shown.
    pub value: String,
    pub hero: bool,
    /// The upper and the lower edge.
    pub top: String,
    pub bottom: String,
    /// The base line of its texts.
    pub base: String,
    pub width: String,
    pub height: String,
    pub radius: String,
    /// Whether the bar has no extent.
    pub degenerate: bool,
    /// Where the value stands.
    pub value_at: String,
}

/// Where the parts of a chart are that every chart has.
pub struct Frame {
    pub w: String,
    pub h: String,
    pub left: String,
    pub right: String,
    pub top: String,
    pub bottom: String,
    /// Where labels to the left of the chart end.
    pub label_end: String,
    /// The middle of the caption of the lower axis, and its base line.
    pub caption_x: String,
    pub caption_y: String,
}

/// The title and the subtitle.
pub open spec fn head_text(title: Seq<char>, subtitle: Seq<char>) -> Seq<char> {
    svg::text_text(
        "24.00"@,
        "30.00"@,
        title,
        theme::TEXT@,
        "15.00"@,
        Anchor::Start,
        theme::WEIGHT,
    ) + svg::text_text(
        "24.00"@,
        "46.00"@,
        subtitle,
        theme::FAINT@,
        "11.00"@,
        Anchor::Start,
        theme::WEIGHT,
    )
}

/// A mark on the lower axis, with a line up through the chart.
pub open spec fn upright_text(tick: Tick, top: Seq<char>, bottom: Seq<char>) -> Seq<char> {
    svg::line_text(tick.at@, top, tick.at@, bottom, theme::BORDER@, "1.00"@) + svg::text_text(
        tick.at@,
        tick.label_at@,
        tick.label@,
        theme::FAINT@,
        "10.00"@,
        Anchor::Middle,
        theme::WEIGHT,
    )
}

/// A mark on the left axis, with a line across the chart.
pub open spec fn level_text(
    tick: Tick,
    left: Seq<char>,
    right: Seq<char>,
    label_end: Seq<char>,
) -> Seq<char> {
    svg::line_text(left, tick.at@, right, tick.at@, theme::BORDER@, "1.00"@) + svg::text_text(
        label_end,
        tick.label_at@,
        tick.label@,
        theme::FAINT@,
        "10.00"@,
        Anchor::End,
        theme::WEIGHT,
    )
}

/// The caption of the lower axis.
pub open spec fn caption_text(frame: Frame, caption: Seq<char>) -> Seq<char> {
    svg::text_text(
        frame.caption_x@,
        frame.caption_y@,
        caption,
        theme::FAINT@,
        "10.00"@,
        Anchor::Middle,
        theme::WEIGHT,
    )
}

/// The first `k` marks on the lower axis.
pub open spec fn uprights_text(
    ticks: Seq<Tick>,
    top: Seq<char>,
    bottom: Seq<char>,
    k: int,
) -> Seq<char>
    decreases k,
{
    if k <= 0 {
        Seq::empty()
    } else {
        uprights_text(ticks, top, bottom, k - 1) + upright_text(ticks[k - 1], top, bottom)
    }
}

/// The first `k` marks on the left axis.
pub open spec fn levels_text(ticks: Seq<Tick>, frame: Frame, k: int) -> Seq<char>
    decreases k,
{
    if k <= 0 {
        Seq::empty()
    } else {
        levels_text(ticks, frame, k - 1) + level_text(
            ticks[k - 1],
            frame.left@,
            frame.right@,
            frame.label_end@,
        )
    }
}

/// The colour of a bar.
pub open spec fn bar_fill(hero: bool) -> Seq<char> {
    if hero {
        theme::HERO@
    } else {
        theme::NEUTRAL@
    }
}

/// The colour of the texts of a bar.
pub open spec fn bar_ink(hero: bool) -> Seq<char> {
    if hero {
        theme::TEXT@
    } else {
        theme::MUTED@
    }
}

/// A bar: its label, the bar itself, an edge unless it is the hero, and its value.
pub open spec fn bar_text(bar: BarMark, frame: Frame) -> Seq<char> {
    svg::text_text(
        frame.label_end@,
        bar.base@,
        bar.label@,
        bar_ink(bar.hero),
        "11.00"@,
        Anchor::End,
        theme::WEIGHT,
    ) + (if bar.degenerate {
        Seq::empty()
    } else {
        svg::rect_text(
            frame.left@,
            bar.top@,
            bar.width@,
            bar.height@,
            bar_fill(bar.hero),
            bar.radius@,
        )
    }) + (if bar.hero {
        Seq::empty()
    } else {
        svg::line_text(
            frame.left@,
            bar.top@,
            frame.left@,
            bar.bottom@,
            theme::NEUTRAL_EDGE@,
            "1.00"@,
        )
    }) + svg::text_text(
        bar.value_at@,
        bar.base@,
        bar.value@,
        bar_ink(bar.hero),
        "11.00"@,
        Anchor::Start,
        theme::WEIGHT,
    )
}

/// The first `k` bars.
pub open spec fn bars_text(bars: Seq<BarMark>, frame: Frame, k: int) -> Seq<char>
    decreases k,
{
    if k <= 0 {
        Seq::empty()
    } else {
        bars_text(bars, frame, k - 1) + bar_text(bars[k - 1], frame)
    }
}

/// The left axis.
pub open spec fn left_axis_text(frame: Frame) -> Seq<char> {
    svg::line_text(
        frame.left@,
        frame.top@,
        frame.left@,
        frame.bottom@,
        theme::BORDER_STRONG@,
        "1.00"@,
    )
}

/// The lower axis.
pub open spec fn lower_axis_text(frame: Frame) -> Seq<char> {
    svg::line_text(
        frame.left@,
        frame.bottom@,
        frame.right@,
        frame.bottom@,
        theme::BORDER_STRONG@,
        "1.00"@,
    )
}

/// A bar chart: the head, the marks on the lower axis behind everything else, its
/// caption, the bars from the top down, and the axis that they stand on.
pub open spec fn bars_body(
    title: Seq<char>,
    subtitle: Seq<char>,
    unit: Seq<char>,
    frame: Frame,
    ticks: Seq<Tick>,
    bars: Seq<BarMark>,
) -> Seq<char> {
    head_text(title, subtitle) + uprights_text(
        ticks,
        frame.top@,
        frame.bottom@,
        ticks.len() as int,
    ) + caption_text(frame, unit) + bars_text(bars, frame, bars.len() as int) + left_axis_text(
        frame,
    )
}

proof fn lemma_text(
    x: Seq<char>,
    y: Seq<char>,
    s: Seq<char>,
    fill: Seq<char>,
    size: Seq<char>,
    anchor: Anchor,
)
    ensures
        text::occurs(svg::text_text(x, y, s, fill, size, anchor, theme::WEIGHT), svg::escaped(s)),
{
    svg::law_a_text_shows_what_it_is_given(x, y, s, fill, size, anchor, theme::WEIGHT);
}

/// Bars, and the marks on the axes, are drawn one after another, each once.
pub proof fn law_parts_are_drawn_in_their_order(
    bars: Seq<BarMark>,
    ticks: Seq<Tick>,
    frame: Frame,
    top: Seq<char>,
    bottom: Seq<char>,
    k: int,
)
    requires
        0 <= k,
    ensures
        bars_text(bars, frame, 0) == Seq::<char>::empty(),
        bars_text(bars, frame, k + 1) == bars_text(bars, frame, k) + bar_text(bars[k], frame),
        uprights_text(ticks, top, bottom, 0) == Seq::<char>::empty(),
        uprights_text(ticks, top, bottom, k + 1) == uprights_text(ticks, top, bottom, k)
            + upright_text(ticks[k], top, bottom),
        levels_text(ticks, frame, 0) == Seq::<char>::empty(),
        levels_text(ticks, frame, k + 1) == levels_text(ticks, frame, k) + level_text(
            ticks[k],
            frame.left@,
            frame.right@,
            frame.label_end@,
        ),
{
}

proof fn lemma_bar_occurs(bars: Seq<BarMark>, frame: Frame, k: int, i: int)
    requires
        0 <= i < k,
    ensures
        text::occurs(bars_text(bars, frame, k), bar_text(bars[i], frame)),
    decreases k,
{
    let before = bars_text(bars, frame, k - 1);
    let last = bar_text(bars[k - 1], frame);
    if i == k - 1 {
        text::lemma_occurs_between(before, last, Seq::empty());
    } else {
        lemma_bar_occurs(bars, frame, k - 1, i);
        text::lemma_occurs_between(Seq::empty(), before, last);
        text::lemma_occurs_within(before + last, before, bar_text(bars[i], frame));
    }
}

proof fn lemma_upright_occurs(
    ticks: Seq<Tick>,
    top: Seq<char>,
    bottom: Seq<char>,
    k: int,
    i: int,
)
    requires
        0 <= i < k,
    ensures
        text::occurs(uprights_text(ticks, top, bottom, k), upright_text(ticks[i], top, bottom)),
    decreases k,
{
    let before = uprights_text(ticks, top, bottom, k - 1);
    let last = upright_text(ticks[k - 1], top, bottom);
    if i == k - 1 {
        text::lemma_occurs_between(before, last, Seq::empty());
    } else {
        lemma_upright_occurs(ticks, top, bottom, k - 1, i);
        text::lemma_occurs_between(Seq::empty(), before, last);
        text::lemma_occurs_within(before + last, before, upright_text(ticks[i], top, bottom));
    }
}

proof fn lemma_level_occurs(ticks: Seq<Tick>, frame: Frame, k: int, i: int)
    requires
        0 <= i < k,
    ensures
        text::occurs(
            levels_text(ticks, frame, k),
            level_text(ticks[i], frame.left@, frame.right@, frame.label_end@),
        ),
    decreases k,
{
    let before = levels_text(ticks, frame, k - 1);
    let last = level_text(ticks[k - 1], frame.left@, frame.right@, frame.label_end@);
    if i == k - 1 {
        text::lemma_occurs_between(before, last, Seq::empty());
    } else {
        lemma_level_occurs(ticks, frame, k - 1, i);
        text::lemma_occurs_between(Seq::empty(), before, last);
        text::lemma_occurs_within(
            before + last,
            before,
            level_text(ticks[i], frame.left@, frame.right@, frame.label_end@),
        );
    }
}

/// A bar shows its label and its value, beside the bar itself, which is in the colour of
/// the hero exactly where it is the hero's; where it is not, it has an edge.
pub proof fn law_what_a_bar_shows(bar: BarMark, frame: Frame)
    ensures
        text::occurs(bar_text(bar, frame), svg::escaped(bar.label@)),
        text::occurs(bar_text(bar, frame), svg::escaped(bar.value@)),
        !bar.degenerate && bar.hero ==> text::occurs(
            bar_text(bar, frame),
            svg::rect_text(
                frame.left@,
                bar.top@,
                bar.width@,
                bar.height@,
                theme::HERO@,
                bar.radius@,
            ),
        ),
        !bar.degenerate && !bar.hero ==> text::occurs(
            bar_text(bar, frame),
            svg::rect_text(
                frame.left@,
                bar.top@,
                bar.width@,
                bar.height@,
                theme::NEUTRAL@,
                bar.radius@,
            ),
        ),
        !bar.hero ==> text::occurs(
            bar_text(bar, frame),
            svg::line_text(
                frame.left@,
                bar.top@,
                frame.left@,
                bar.bottom@,
                theme::NEUTRAL_EDGE@,
                "1.00"@,
            ),
        ),
{
    let ink = bar_ink(bar.hero);
    let label = svg::text_text(
        frame.label_end@,
        bar.base@,
        bar.label@,
        ink,
        "11.00"@,
        Anchor::End,
        theme::WEIGHT,
    );
    let rect = if bar.degenerate {
        Seq::empty()
    } else {
        svg::rect_text(
            frame.left@,
            bar.top@,
            bar.width@,
            bar.height@,
            bar_fill(bar.hero),
            bar.radius@,
        )
    };
    let edge = if bar.hero {
        Seq::empty()
    } else {
        svg::line_text(
            frame.left@,
            bar.top@,
            frame.left@,
            bar.bottom@,
            theme::NEUTRAL_EDGE@,
            "1.00"@,
        )
    };
    let value = svg::text_text(
        bar.value_at@,
        bar.base@,
        bar.value@,
        ink,
        "11.00"@,
        Anchor::Start,
        theme::WEIGHT,
    );
    let whole = bar_text(bar, frame);
    assert(whole =~= label + rect + edge + value);
    assert(whole =~= Seq::<char>::empty() + label + (rect + edge + value));
    assert(whole =~= label + rect + (edge + value));
    assert(whole =~= (label + rect) + edge + value);
    assert(whole =~= (label + rect + edge) + value + Seq::<char>::empty());
    text::lemma_occurs_between(Seq::empty(), label, rect + edge + value);
    text::lemma_occurs_between(label, rect, edge + value);
    text::lemma_occurs_between(label + rect, edge, value);
    text::lemma_occurs_between(label + rect + edge, value, Seq::empty());
    lemma_text(frame.label_end@, bar.base@, bar.label@, ink, "11.00"@, Anchor::End);
    lemma_text(bar.value_at@, bar.base@, bar.value@, ink, "11.00"@, Anchor::Start);
    text::lemma_occurs_within(whole, label, svg::escaped(bar.label@));
    text::lemma_occurs_within(whole, value, svg::escaped(bar.value@));
}

proof fn lemma_head(title: Seq<char>, subtitle: Seq<char>)
    ensures
        text::occurs(head_text(title, subtitle), svg::escaped(title)),
        text::occurs(head_text(title, subtitle), svg::escaped(subtitle)),
{
    let a = svg::text_text(
        "24.00"@,
        "30.00"@,
        title,
        theme::TEXT@,
        "15.00"@,
        Anchor::Start,
        theme::WEIGHT,
    );
    let b = svg::text_text(
        "24.00"@,
        "46.00"@,
        subtitle,
        theme::FAINT@,
        "11.00"@,
        Anchor::Start,
        theme::WEIGHT,
    );
    text::lemma_occurs_between(Seq::empty(), a, b);
    text::lemma_occurs_between(a, b, Seq::empty());
    lemma_text("24.00"@, "30.00"@, title, theme::TEXT@, "15.00"@, Anchor::Start);
    lemma_text("24.00"@, "46.00"@, subtitle, theme::FAINT@, "11.00"@, Anchor::Start);
    text::lemma_occurs_within(head_text(title, subtitle), a, svg::escaped(title));
    text::lemma_occurs_within(head_text(title, subtitle), b, svg::escaped(subtitle));
}

/// A bar chart shows its title, its subtitle, its unit, all of its marks and all of its
/// bars, with their labels and values.
pub proof fn law_a_bar_chart_shows_everything(
    title: Seq<char>,
    subtitle: Seq<char>,
    unit: Seq<char>,
    frame: Frame,
    ticks: Seq<Tick>,
    bars: Seq<BarMark>,
    i: int,
)
    ensures
        ({
            let body = bars_body(title, subtitle, unit, frame, ticks, bars);
            &&& text::occurs(body, svg::escaped(title))
            &&& text::occurs(body, svg::escaped(subtitle))
            &&& text::occurs(body, svg::escaped(unit))
            &&& text::occurs(body, bars_text(bars, frame, bars.len() as int))
            &&& 0 <= i < bars.len() ==> {
                &&& text::occurs(body, bar_text(bars[i], frame))
                &&& text::occurs(body, svg::escaped(bars[i].label@))
                &&& text::occurs(body, svg::escaped(bars[i].value@))
            }
            &&& 0 <= i < ticks.len() ==> text::occurs(
                body,
                upright_text(ticks[i], frame.top@, frame.bottom@),
            )
        }),
{
    let body = bars_body(title, subtitle, unit, frame, ticks, bars);
    let head = head_text(title, subtitle);
    let marks = uprights_text(ticks, frame.top@, frame.bottom@, ticks.len() as int);
    let caption = caption_text(frame, unit);
    let all = bars_text(bars, frame, bars.len() as int);
    let axis = left_axis_text(frame);
    assert(body =~= Seq::<char>::empty() + head + (marks + caption + all + axis));
    assert(body =~= head + marks + (caption + all + axis));
    assert(body =~= (head + marks) + caption + (all + axis));
    assert(body =~= (head + marks + caption) + all + axis);
    text::lemma_occurs_between(Seq::empty(), head, marks + caption + all + axis);
    text::lemma_occurs_between(head, marks, caption + all + axis);
    text::lemma_occurs_between(head + marks, caption, all + axis);
    text::lemma_occurs_between(head + marks + caption, all, axis);
    lemma_head(title, subtitle);
    text::lemma_occurs_within(body, head, svg::escaped(title));
    text::lemma_occurs_within(body, head, svg::escaped(subtitle));
    lemma_text(
        frame.caption_x@,
        frame.caption_y@,
        unit,
        theme::FAINT@,
        "10.00"@,
        Anchor::Middle,
    );
    text::lemma_occurs_within(body, caption, svg::escaped(unit));
    if 0 <= i < bars.len() {
        lemma_bar_occurs(bars, frame, bars.len() as int, i);
        text::lemma_occurs_within(body, all, bar_text(bars[i], frame));
        law_what_a_bar_shows(bars[i], frame);
        text::lemma_occurs_within(body, bar_text(bars[i], frame), svg::escaped(bars[i].label@));
        text::lemma_occurs_within(body, bar_text(bars[i], frame), svg::escaped(bars[i].value@));
    }
    if 0 <= i < ticks.len() {
        lemma_upright_occurs(ticks, frame.top@, frame.bottom@, ticks.len() as int, i);
        text::lemma_occurs_within(body, marks, upright_text(ticks[i], frame.top@, frame.bottom@));
    }
}

fn draw_head(s: &mut Svg, title: &str, subtitle: &str)
    ensures
        final(s).body() == old(s).body() + head_text(title@, subtitle@),
        final(s).width() == old(s).width(),
        final(s).height() == old(s).height(),
{
    let ghost start = s.body();
    s.text("24.00", "30.00", title, theme::TEXT, "15.00", Anchor::Start, theme::WEIGHT);
    s.text("24.00", "46.00", subtitle, theme::FAINT, "11.00", Anchor::Start, theme::WEIGHT);
    assert(s.body() =~= start + head_text(title@, subtitle@));
}

fn draw_caption(s: &mut Svg, frame: &Frame, caption: &str)
    ensures
        final(s).body() == old(s).body() + caption_text(*frame, caption@),
        final(s).width() == old(s).width(),
        final(s).height() == old(s).height(),
{
    s.text(
        frame.caption_x.as_str(),
        frame.caption_y.as_str(),
        caption,
        theme::FAINT,
        "10.00",
        Anchor::Middle,
        theme::WEIGHT,
    );
}

fn draw_uprights(s: &mut Svg, ticks: &Vec<Tick>, frame: &Frame)
    ensures
        final(s).body() == old(s).body() + uprights_text(
            ticks@,
            frame.top@,
            frame.bottom@,
            ticks@.len() as int,
        ),
        final(s).width() == old(s).width(),
        final(s).height() == old(s).height(),
{
    let ghost start = s.body();
    let mut i: usize = 0;
    assert(s.body() =~= start + uprights_text(ticks@, frame.top@, frame.bottom@, 0));
    while i < ticks.len()
        invariant
            i <= ticks@.len(),
            s.body() == start + uprights_text(ticks@, frame.top@, frame.bottom@, i as int),
            s.width() == old(s).width(),
            s.height() == old(s).height(),
        decreases ticks@.len() - i,
    {
        let tick = &ticks[i];
        let ghost before = uprights_text(ticks@, frame.top@, frame.bottom@, i as int);
        s.line(
            tick.at.as_str(),
            frame.top.as_str(),
            tick.at.as_str(),
            frame.bottom.as_str(),
            theme::BORDER,
            "1.00",
        );
        s.text(
            tick.at.as_str(),
            tick.label_at.as_str(),
            tick.label.as_str(),
            theme::FAINT,
            "10.00",
            Anchor::Middle,
            theme::WEIGHT,
        );
        assert(s.body() =~= start + (before + upright_text(*tick, frame.top@, frame.bottom@)));
        i = i + 1;
    }
}

fn draw_levels(s: &mut Svg, ticks: &Vec<Tick>, frame: &Frame)
    ensures
        final(s).body() == old(s).body() + levels_text(ticks@, *frame, ticks@.len() as int),
        final(s).width() == old(s).width(),
        final(s).height() == old(s).height(),
{
    let ghost start = s.body();
    let mut i: usize = 0;
    assert(s.body() =~= start + levels_text(ticks@, *frame, 0));
    while i < ticks.len()
        invariant
            i <= ticks@.len(),
            s.body() == start + levels_text(ticks@, *frame, i as int),
            s.width() == old(s).width(),
            s.height() == old(s).height(),
        decreases ticks@.len() - i,
    {
        let tick = &ticks[i];
        let ghost before = levels_text(ticks@, *frame, i as int);
        s.line(
            frame.left.as_str(),
            tick.at.as_str(),
            frame.right.as_str(),
            tick.at.as_str(),
            theme::BORDER,
            "1.00",
        );
        s.text(
            frame.label_end.as_str(),
            tick.label_at.as_str(),
            tick.label.as_str(),
            theme::FAINT,
            "10.00",
            Anchor::End,
            theme::WEIGHT,
        );
        assert(s.body() =~= start + (before + level_text(
            *tick,
            frame.left@,
            frame.right@,
            frame.label_end@,
        )));
        i = i + 1;
    }
}

fn draw_bar(s: &mut Svg, bar: &BarMark, frame: &Frame)
    ensures
        final(s).body() == old(s).body() + bar_text(*bar, *frame),
        final(s).width() == old(s).width(),
        final(s).height() == old(s).height(),
{
    let ghost start = s.body();
    let (fill, ink) = theme::bar_colours(bar.hero);
    s.text(
        frame.label_end.as_str(),
        bar.base.as_str(),
        bar.label.as_str(),
        ink,
        "11.00",
        Anchor::End,
        theme::WEIGHT,
    );
    s.rect(
        frame.left.as_str(),
        bar.top.as_str(),
        bar.width.as_str(),
        bar.height.as_str(),
        fill,
        bar.radius.as_str(),
        bar.degenerate,
    );
    if !bar.hero {
        s.line(
            frame.left.as_str(),
            bar.top.as_str(),
            frame.left.as_str(),
            bar.bottom.as_str(),
            theme::NEUTRAL_EDGE,
            "1.00",
        );
    }
    s.text(
        bar.value_at.as_str(),
        bar.base.as_str(),
        bar.value.as_str(),
        ink,
        "11.00",
        Anchor::Start,
        theme::WEIGHT,
    );
    assert(s.body() =~= start + bar_text(*bar, *frame));
}

/// Draws a bar chart. Its subtitle says which end of the scale is good.
pub fn bars_chart(
    title: &str,
    subtitle: &str,
    unit: &str,
    frame: &Frame,
    ticks: &Vec<Tick>,
    bars: &Vec<BarMark>,
    better: Better,
) -> (r: String)
    ensures
        r@ == svg::document_text(
            frame.w@,
            frame.h@,
            title@,
            charts::stated(subtitle@, better),
            bars_body(
                title@,
                charts::stated(subtitle@, better),
                unit@,
                *frame,
                ticks@,
                bars@,
            ),
        ),
{
    let stated = charts::state_direction(subtitle, better);
    let subtitle = stated.as_str();
    let mut s = Svg::new(frame.w.as_str(), frame.h.as_str());
    draw_head(&mut s, title, subtitle);
    draw_uprights(&mut s, ticks, frame);
    draw_caption(&mut s, frame, unit);
    let ghost start = s.body();
    let mut i: usize = 0;
    assert(s.body() =~= start + bars_text(bars@, *frame, 0));
    while i < bars.len()
        invariant
            i <= bars@.len(),
            s.body() == start + bars_text(bars@, *frame, i as int),
            s.width() == frame.w@,
            s.height() == frame.h@,
        decreases bars@.len() - i,
    {
        let ghost before = bars_text(bars@, *frame, i as int);
        draw_bar(&mut s, &bars[i], frame);
        assert(s.body() =~= start + (before + bar_text(bars@[i as int], *frame)));
        i = i + 1;
    }
    s.line(
        frame.left.as_str(),
        frame.top.as_str(),
        frame.left.as_str(),
        frame.bottom.as_str(),
        theme::BORDER_STRONG,
        "1.00",
    );
    assert(s.body() =~= bars_body(title@, subtitle@, unit@, *frame, ticks@, bars@));
    s.finish(title, subtitle)
}

/// A curve: its points, its name, and where the key and the name stand in the
/// legend.
pub struct Curve {
    pub points: Vec<(String, String)>,
    pub name: String,
    pub key_x: String,
    pub key_y: String,
    pub name_x: String,
    pub name_y: String,
}

/// The name of a curve, and where it stands beside the curve.
pub struct CurveLabel {
    pub x: String,
    pub y: String,
    pub name: String,
    /// The number of the curve.
    pub curve: usize,
}

/// The points of a curve, with text as sequences of characters.
pub open spec fn curve_points(curve: Curve) -> Seq<(Seq<char>, Seq<char>)> {
    curve.points@.map_values(|p: (String, String)| (p.0@, p.1@))
}

/// The first `k` markers of a curve.
pub open spec fn markers_text(
    pts: Seq<(Seq<char>, Seq<char>)>,
    colour: Seq<char>,
    k: int,
) -> Seq<char>
    decreases k,
{
    if k <= 0 {
        Seq::empty()
    } else {
        markers_text(pts, colour, k - 1) + svg::marker_text(
            pts[k - 1].0,
            pts[k - 1].1,
            "4.00"@,
            colour,
            theme::BG@,
        )
    }
}

/// Curve number `i` of a chart: a line where there are two points or more, and a
/// marker at each point.
pub open spec fn curve_text(curve: Curve, i: int) -> Seq<char> {
    let pts = curve_points(curve);
    let colour = theme::colour_of(i);
    (if pts.len() < 2 {
        Seq::empty()
    } else {
        svg::path_text(pts, colour, "2.00"@)
    }) + markers_text(pts, colour, pts.len() as int)
}

/// What the legend of a chart says of its curve number `i`: a key in the colour
/// of the curve, and the name.
pub open spec fn entry_text(curve: Curve, i: int) -> Seq<char> {
    svg::marker_text(
        curve.key_x@,
        curve.key_y@,
        "4.00"@,
        theme::colour_of(i),
        theme::BG@,
    ) + svg::text_text(
        curve.name_x@,
        curve.name_y@,
        curve.name@,
        theme::MUTED@,
        "10.00"@,
        Anchor::Start,
        theme::WEIGHT,
    )
}

/// The curves from number `from` up to number `to`, in a chart of their own.
pub open spec fn curves_text(curves: Seq<Curve>, from: int, to: int) -> Seq<char>
    decreases to - from,
{
    if to <= from {
        Seq::empty()
    } else {
        curves_text(curves, from, to - 1) + curve_text(curves[to - 1], to - 1 - from)
    }
}

/// The legend of the curves from number `from` up to number `to`, in a chart of
/// their own.
pub open spec fn legend_text(curves: Seq<Curve>, from: int, to: int) -> Seq<char>
    decreases to - from,
{
    if to <= from {
        Seq::empty()
    } else {
        legend_text(curves, from, to - 1) + entry_text(curves[to - 1], to - 1 - from)
    }
}

/// The name of a curve, in the colour of the curve, where the curves of the chart
/// are those from number `from` up to number `to`.
pub open spec fn label_text(label: CurveLabel, from: int, to: int) -> Seq<char> {
    if from <= label.curve < to {
        svg::text_text(
            label.x@,
            label.y@,
            label.name@,
            theme::colour_of(label.curve - from),
            "11.00"@,
            Anchor::Start,
            theme::WEIGHT,
        )
    } else {
        Seq::empty()
    }
}

/// The first `k` names, those of other charts left out.
pub open spec fn labels_text(labels: Seq<CurveLabel>, from: int, to: int, k: int) -> Seq<char>
    decreases k,
{
    if k <= 0 {
        Seq::empty()
    } else {
        labels_text(labels, from, to, k - 1) + label_text(labels[k - 1], from, to)
    }
}

/// What stands below the percentiles.
pub const PERCENTILE_CAPTION: &'static str = "percentile (log scale \u{2014} the tail gets the room)";

/// A chart of the percentiles of the curves from number `from` up to number `to`:
/// the head, the marks on both axes, the caption of the lower one, the legend, the
/// curves, their names above them, and the axes.
pub open spec fn latency_body(
    title: Seq<char>,
    subtitle: Seq<char>,
    frame: Frame,
    levels: Seq<Tick>,
    percentiles: Seq<Tick>,
    curves: Seq<Curve>,
    labels: Seq<CurveLabel>,
    from: int,
    to: int,
) -> Seq<char> {
    head_text(title, subtitle) + levels_text(levels, frame, levels.len() as int) + uprights_text(
        percentiles,
        frame.top@,
        frame.bottom@,
        percentiles.len() as int,
    ) + caption_text(frame, PERCENTILE_CAPTION@) + legend_text(curves, from, to) + curves_text(
        curves,
        from,
        to,
    ) + labels_text(labels, from, to, labels.len() as int) + left_axis_text(frame)
        + lower_axis_text(frame)
}

/// Curves, their entries in the legend and their markers are drawn one after another,
/// each once, in the colour of its number.
pub proof fn law_curves_are_drawn_in_their_order(
    curves: Seq<Curve>,
    labels: Seq<CurveLabel>,
    from: int,
    to: int,
    k: int,
)
    requires
        from <= to,
        0 <= k,
    ensures
        curves_text(curves, from, from) == Seq::<char>::empty(),
        curves_text(curves, from, to + 1) == curves_text(curves, from, to) + curve_text(
            curves[to],
            to - from,
        ),
        legend_text(curves, from, from) == Seq::<char>::empty(),
        legend_text(curves, from, to + 1) == legend_text(curves, from, to) + entry_text(
            curves[to],
            to - from,
        ),
        labels_text(labels, from, to, 0) == Seq::<char>::empty(),
        labels_text(labels, from, to, k + 1) == labels_text(labels, from, to, k) + label_text(
            labels[k],
            from,
            to,
        ),
        labels[k].curve < from || labels[k].curve >= to ==> label_text(labels[k], from, to)
            == Seq::<char>::empty(),
{
}

proof fn lemma_curve_occurs(curves: Seq<Curve>, from: int, to: int, i: int)
    requires
        from <= i < to,
    ensures
        text::occurs(curves_text(curves, from, to), curve_text(curves[i], i - from)),
        text::occurs(legend_text(curves, from, to), entry_text(curves[i], i - from)),
    decreases to - from,
{
    let before = curves_text(curves, from, to - 1);
    let last = curve_text(curves[to - 1], to - 1 - from);
    let said = legend_text(curves, from, to - 1);
    let entry = entry_text(curves[to - 1], to - 1 - from);
    if i == to - 1 {
        text::lemma_occurs_between(before, last, Seq::empty());
        text::lemma_occurs_between(said, entry, Seq::empty());
    } else {
        lemma_curve_occurs(curves, from, to - 1, i);
        text::lemma_occurs_between(Seq::empty(), before, last);
        text::lemma_occurs_within(before + last, before, curve_text(curves[i], i - from));
        text::lemma_occurs_between(Seq::empty(), said, entry);
        text::lemma_occurs_within(said + entry, said, entry_text(curves[i], i - from));
    }
}

proof fn lemma_label_occurs(labels: Seq<CurveLabel>, from: int, to: int, k: int, i: int)
    requires
        0 <= i < k,
    ensures
        text::occurs(labels_text(labels, from, to, k), label_text(labels[i], from, to)),
    decreases k,
{
    let before = labels_text(labels, from, to, k - 1);
    let last = label_text(labels[k - 1], from, to);
    if i == k - 1 {
        text::lemma_occurs_between(before, last, Seq::empty());
    } else {
        lemma_label_occurs(labels, from, to, k - 1, i);
        text::lemma_occurs_between(Seq::empty(), before, last);
        text::lemma_occurs_within(before + last, before, label_text(labels[i], from, to));
    }
}

proof fn lemma_marker_occurs(
    pts: Seq<(Seq<char>, Seq<char>)>,
    colour: Seq<char>,
    k: int,
    i: int,
)
    requires
        0 <= i < k,
    ensures
        text::occurs(
            markers_text(pts, colour, k),
            svg::marker_text(pts[i].0, pts[i].1, "4.00"@, colour, theme::BG@),
        ),
    decreases k,
{
    let before = markers_text(pts, colour, k - 1);
    let last = svg::marker_text(pts[k - 1].0, pts[k - 1].1, "4.00"@, colour, theme::BG@);
    if i == k - 1 {
        text::lemma_occurs_between(before, last, Seq::empty());
    } else {
        lemma_marker_occurs(pts, colour, k - 1, i);
        text::lemma_occurs_between(Seq::empty(), before, last);
        text::lemma_occurs_within(
            before + last,
            before,
            svg::marker_text(pts[i].0, pts[i].1, "4.00"@, colour, theme::BG@),
        );
    }
}

/// A curve shows a marker at each of its points, and a line through all of them where
/// there are two or more, in the colour of its number. Its entry in the legend shows its
/// name, beside a key in the same colour.
pub proof fn law_what_a_curve_shows(curve: Curve, i: int, p: int)
    ensures
        ({
            let pts = curve_points(curve);
            let colour = theme::colour_of(i);
            &&& pts.len() == curve.points@.len()
            &&& pts.len() >= 2 ==> text::occurs(
                curve_text(curve, i),
                svg::path_text(pts, colour, "2.00"@),
            )
            &&& 0 <= p < pts.len() ==> {
                &&& pts[p] == (curve.points@[p].0@, curve.points@[p].1@)
                &&& text::occurs(
                    curve_text(curve, i),
                    svg::marker_text(pts[p].0, pts[p].1, "4.00"@, colour, theme::BG@),
                )
            }
            &&& text::occurs(entry_text(curve, i), svg::escaped(curve.name@))
            &&& text::occurs(
                entry_text(curve, i),
                svg::marker_text(curve.key_x@, curve.key_y@, "4.00"@, colour, theme::BG@),
            )
        }),
{
    let pts = curve_points(curve);
    let colour = theme::colour_of(i);
    let line = if pts.len() < 2 {
        Seq::empty()
    } else {
        svg::path_text(pts, colour, "2.00"@)
    };
    let marks = markers_text(pts, colour, pts.len() as int);
    text::lemma_occurs_between(Seq::empty(), line, marks);
    text::lemma_occurs_between(line, marks, Seq::empty());
    if 0 <= p < pts.len() {
        lemma_marker_occurs(pts, colour, pts.len() as int, p);
        text::lemma_occurs_within(
            curve_text(curve, i),
            marks,
            svg::marker_text(pts[p].0, pts[p].1, "4.00"@, colour, theme::BG@),
        );
    }
    let key = svg::marker_text(curve.key_x@, curve.key_y@, "4.00"@, colour, theme::BG@);
    let name = svg::text_text(
        curve.name_x@,
        curve.name_y@,
        curve.name@,
        theme::MUTED@,
        "10.00"@,
        Anchor::Start,
        theme::WEIGHT,
    );
    text::lemma_occurs_between(Seq::empty(), key, name);
    text::lemma_occurs_between(key, name, Seq::empty());
    lemma_text(curve.name_x@, curve.name_y@, curve.name@, theme::MUTED@, "10.00"@, Anchor::Start);
    text::lemma_occurs_within(entry_text(curve, i), name, svg::escaped(curve.name@));
}

proof fn lemma_parts_occur(
    a: Seq<char>,
    b: Seq<char>,
    c: Seq<char>,
    d: Seq<char>,
    e: Seq<char>,
    f: Seq<char>,
    g: Seq<char>,
    h: Seq<char>,
    i: Seq<char>,
)
    ensures
        ({
            let whole = a + b + c + d + e + f + g + h + i;
            &&& text::occurs(whole, a)
            &&& text::occurs(whole, b)
            &&& text::occurs(whole, c)
            &&& text::occurs(whole, e)
            &&& text::occurs(whole, f)
            &&& text::occurs(whole, g)
        }),
{
    let whole = a + b + c + d + e + f + g + h + i;
    text::lemma_occurs_between(a + b + c + d + e + f, g, h + i);
    assert(whole =~= (a + b + c + d + e + f) + g + (h + i));
    text::lemma_occurs_between(a + b + c + d + e, f, g + h + i);
    assert(whole =~= (a + b + c + d + e) + f + (g + h + i));
    text::lemma_occurs_between(a + b + c + d, e, f + g + h + i);
    assert(whole =~= (a + b + c + d) + e + (f + g + h + i));
    text::lemma_occurs_between(a + b, c, d + e + f + g + h + i);
    assert(whole =~= (a + b) + c + (d + e + f + g + h + i));
    text::lemma_occurs_between(a, b, c + d + e + f + g + h + i);
    assert(whole =~= a + b + (c + d + e + f + g + h + i));
    let rest = b + c + d + e + f + g + h + i;
    text::lemma_occurs_between(Seq::empty(), a, rest);
    assert(whole =~= a + rest);
}

/// A chart of percentiles shows its title, its subtitle, all of its marks, and all of its
/// curves, each with its entry in the legend and the names beside it.
pub proof fn law_a_latency_chart_shows_everything(
    title: Seq<char>,
    subtitle: Seq<char>,
    frame: Frame,
    levels: Seq<Tick>,
    percentiles: Seq<Tick>,
    curves: Seq<Curve>,
    labels: Seq<CurveLabel>,
    from: int,
    to: int,
    i: int,
)
    ensures
        ({
            let body = latency_body(
                title,
                subtitle,
                frame,
                levels,
                percentiles,
                curves,
                labels,
                from,
                to,
            );
            &&& text::occurs(body, svg::escaped(title))
            &&& text::occurs(body, svg::escaped(subtitle))
            &&& from <= i < to ==> {
                &&& text::occurs(body, curve_text(curves[i], i - from))
                &&& text::occurs(body, entry_text(curves[i], i - from))
                &&& text::occurs(body, svg::escaped(curves[i].name@))
            }
            &&& 0 <= i < labels.len() && from <= labels[i].curve < to ==> text::occurs(
                body,
                svg::text_text(
                    labels[i].x@,
                    labels[i].y@,
                    labels[i].name@,
                    theme::colour_of(labels[i].curve - from),
                    "11.00"@,
                    Anchor::Start,
                    theme::WEIGHT,
                ),
            )
            &&& 0 <= i < levels.len() ==> text::occurs(
                body,
                level_text(levels[i], frame.left@, frame.right@, frame.label_end@),
            )
            &&& 0 <= i < percentiles.len() ==> text::occurs(
                body,
                upright_text(percentiles[i], frame.top@, frame.bottom@),
            )
        }),
{
    let body = latency_body(
        title,
        subtitle,
        frame,
        levels,
        percentiles,
        curves,
        labels,
        from,
        to,
    );
    let head = head_text(title, subtitle);
    let rows = levels_text(levels, frame, levels.len() as int);
    let marks = uprights_text(percentiles, frame.top@, frame.bottom@, percentiles.len() as int);
    let caption = caption_text(frame, PERCENTILE_CAPTION@);
    let legend = legend_text(curves, from, to);
    let drawn = curves_text(curves, from, to);
    let names = labels_text(labels, from, to, labels.len() as int);
    lemma_parts_occur(
        head,
        rows,
        marks,
        caption,
        legend,
        drawn,
        names,
        left_axis_text(frame),
        lower_axis_text(frame),
    );
    lemma_head(title, subtitle);
    text::lemma_occurs_within(body, head, svg::escaped(title));
    text::lemma_occurs_within(body, head, svg::escaped(subtitle));
    if from <= i < to {
        lemma_curve_occurs(curves, from, to, i);
        text::lemma_occurs_within(body, drawn, curve_text(curves[i], i - from));
        text::lemma_occurs_within(body, legend, entry_text(curves[i], i - from));
        law_what_a_curve_shows(curves[i], i - from, 0);
        text::lemma_occurs_within(
            body,
            entry_text(curves[i], i - from),
            svg::escaped(curves[i].name@),
        );
    }
    if 0 <= i < labels.len() && from <= labels[i].curve < to {
        lemma_label_occurs(labels, from, to, labels.len() as int, i);
        text::lemma_occurs_within(body, names, label_text(labels[i], from, to));
    }
    if 0 <= i < levels.len() {
        lemma_level_occurs(levels, frame, levels.len() as int, i);
        text::lemma_occurs_within(
            body,
            rows,
            level_text(levels[i], frame.left@, frame.right@, frame.label_end@),
        );
    }
    if 0 <= i < percentiles.len() {
        lemma_upright_occurs(
            percentiles,
            frame.top@,
            frame.bottom@,
            percentiles.len() as int,
            i,
        );
        text::lemma_occurs_within(
            body,
            marks,
            upright_text(percentiles[i], frame.top@, frame.bottom@),
        );
    }
}

/// How many charts `count` series take. Without series there is one chart.
pub open spec fn facet_count(count: int) -> int {
    if count <= 0 {
        1
    } else {
        (count - 1) / (theme::SERIES_COUNT as int) + 1
    }
}

/// The number of the first series of chart number `k`.
pub open spec fn facet_start(k: int) -> int {
    k * theme::SERIES_COUNT
}

/// One more than the number of the last series of chart number `k`, of `count`
/// series.
pub open spec fn facet_end(count: int, k: int) -> int {
    if facet_start(k + 1) <= count {
        facet_start(k + 1)
    } else {
        count
    }
}

/// Every series stands in one chart and in no other, and no chart has more series
/// than there are colours.
pub proof fn law_a_series_stands_in_one_chart(count: int, i: int, k: int)
    requires
        0 <= i < count,
        0 <= k < facet_count(count),
    ensures
        (facet_start(k) <= i < facet_end(count, k)) == (k == i / (theme::SERIES_COUNT as int)),
        i / (theme::SERIES_COUNT as int) < facet_count(count),
        0 < facet_end(count, k) - facet_start(k) <= theme::SERIES_COUNT,
{
}

/// The charts take the series one after another: the first begins with the first series,
/// each goes on where the one before it ends, and the last ends with the last series.
pub proof fn law_charts_follow_one_another(count: int, k: int)
    requires
        0 <= k < facet_count(count),
        0 <= count,
    ensures
        facet_start(0) == 0,
        k + 1 < facet_count(count) ==> facet_start(k + 1) == facet_end(count, k),
        k + 1 < facet_count(count) ==> facet_end(count, k) - facet_start(k) == theme::SERIES_COUNT,
        k + 1 == facet_count(count) ==> facet_end(count, k) == count,
{
}

/// There are as few charts as hold all series, and one where there are no series.
pub proof fn law_there_are_no_more_charts_than_needed(count: int)
    requires
        0 <= count,
    ensures
        count == 0 ==> facet_count(count) == 1,
        count > 0 ==> (facet_count(count) - 1) * theme::SERIES_COUNT < count <= facet_count(count)
            * theme::SERIES_COUNT,
        theme::SERIES_COUNT == 5,
{
}

/// The series of each chart, where there are `count` of them: as many as there are
/// colours, and the rest in the last chart.
pub fn facets(count: usize) -> (r: Vec<(usize, usize)>)
    ensures
        r@.len() == facet_count(count as int),
        forall|k: int|
            0 <= k < r@.len() ==> (#[trigger] r@[k]).0 == facet_start(k) && r@[k].1 == facet_end(
                count as int,
                k,
            ),
{
    let mut r: Vec<(usize, usize)> = Vec::new();
    let mut from: usize = 0;
    loop
        invariant
            from == facet_start(r@.len() as int),
            r@.len() < facet_count(count as int),
            forall|k: int|
                0 <= k < r@.len() ==> (#[trigger] r@[k]).0 == facet_start(k) && r@[k].1
                    == facet_end(count as int, k),
        decreases facet_count(count as int) - r@.len(),
    {
        if count - from <= theme::SERIES_COUNT {
            r.push((from, count));
            return r;
        }
        let to: usize = from + theme::SERIES_COUNT;
        r.push((from, to));
        from = to;
    }
}

fn draw_curve(s: &mut Svg, curve: &Curve, i: usize)
    requires
        i < theme::SERIES_COUNT,
    ensures
        final(s).body() == old(s).body() + curve_text(*curve, i as int),
        final(s).width() == old(s).width(),
        final(s).height() == old(s).height(),
{
    let colour = theme::series_colour(i);
    let ghost start = s.body();
    let ghost pts = curve_points(*curve);
    s.path(&curve.points, colour, "2.00");
    let ghost drawn = s.body();
    let mut k: usize = 0;
    assert(s.body() =~= drawn + markers_text(pts, colour@, 0));
    while k < curve.points.len()
        invariant
            k <= curve.points@.len(),
            pts == curve_points(*curve),
            colour@ == theme::colour_of(i as int),
            s.body() == drawn + markers_text(pts, colour@, k as int),
            s.width() == old(s).width(),
            s.height() == old(s).height(),
        decreases curve.points@.len() - k,
    {
        let ghost before = markers_text(pts, colour@, k as int);
        s.marker(
            curve.points[k].0.as_str(),
            curve.points[k].1.as_str(),
            "4.00",
            colour,
            theme::BG,
        );
        assert(s.body() =~= drawn + (before + svg::marker_text(
            pts[k as int].0,
            pts[k as int].1,
            "4.00"@,
            colour@,
            theme::BG@,
        )));
        k = k + 1;
    }
    assert(s.body() =~= start + curve_text(*curve, i as int));
}

fn draw_curves(s: &mut Svg, curves: &Vec<Curve>, from: usize, to: usize)
    requires
        from <= to <= curves@.len(),
        to - from <= theme::SERIES_COUNT,
    ensures
        final(s).body() == old(s).body() + curves_text(curves@, from as int, to as int),
        final(s).width() == old(s).width(),
        final(s).height() == old(s).height(),
{
    let ghost start = s.body();
    let mut i: usize = from;
    assert(s.body() =~= start + curves_text(curves@, from as int, from as int));
    while i < to
        invariant
            from <= i <= to,
            to <= curves@.len(),
            to - from <= theme::SERIES_COUNT,
            s.body() == start + curves_text(curves@, from as int, i as int),
            s.width() == old(s).width(),
            s.height() == old(s).height(),
        decreases to - i,
    {
        let ghost before = curves_text(curves@, from as int, i as int);
        draw_curve(s, &curves[i], i - from);
        assert(s.body() =~= start + (before + curve_text(curves@[i as int], i - from)));
        i = i + 1;
    }
}

fn draw_legend(s: &mut Svg, curves: &Vec<Curve>, from: usize, to: usize)
    requires
        from <= to <= curves@.len(),
        to - from <= theme::SERIES_COUNT,
    ensures
        final(s).body() == old(s).body() + legend_text(curves@, from as int, to as int),
        final(s).width() == old(s).width(),
        final(s).height() == old(s).height(),
{
    let ghost start = s.body();
    let mut i: usize = from;
    assert(s.body() =~= start + legend_text(curves@, from as int, from as int));
    while i < to
        invariant
            from <= i <= to,
            to <= curves@.len(),
            to - from <= theme::SERIES_COUNT,
            s.body() == start + legend_text(curves@, from as int, i as int),
            s.width() == old(s).width(),
            s.height() == old(s).height(),
        decreases to - i,
    {
        let curve = &curves[i];
        let ghost before = legend_text(curves@, from as int, i as int);
        s.marker(
            curve.key_x.as_str(),
            curve.key_y.as_str(),
            "4.00",
            theme::series_colour(i - from),
            theme::BG,
        );
        s.text(
            curve.name_x.as_str(),
            curve.name_y.as_str(),
            curve.name.as_str(),
            theme::MUTED,
            "10.00",
            Anchor::Start,
            theme::WEIGHT,
        );
        assert(s.body() =~= start + (before + entry_text(*curve, i - from)));
        i = i + 1;
    }
}

fn draw_labels(s: &mut Svg, labels: &Vec<CurveLabel>, from: usize, to: usize)
    requires
        to - from <= theme::SERIES_COUNT,
    ensures
        final(s).body() == old(s).body() + labels_text(
            labels@,
            from as int,
            to as int,
            labels@.len() as int,
        ),
        final(s).width() == old(s).width(),
        final(s).height() == old(s).height(),
{
    let ghost start = s.body();
    let mut i: usize = 0;
    assert(s.body() =~= start + labels_text(labels@, from as int, to as int, 0));
    while i < labels.len()
        invariant
            i <= labels@.len(),
            to - from <= theme::SERIES_COUNT,
            s.body() == start + labels_text(labels@, from as int, to as int, i as int),
            s.width() == old(s).width(),
            s.height() == old(s).height(),
        decreases labels@.len() - i,
    {
        let label = &labels[i];
        let ghost before = labels_text(labels@, from as int, to as int, i as int);
        if from <= label.curve && label.curve < to {
            s.text(
                label.x.as_str(),
                label.y.as_str(),
                label.name.as_str(),
                theme::series_colour(label.curve - from),
                "11.00",
                Anchor::Start,
                theme::WEIGHT,
            );
        }
        assert(s.body() =~= start + (before + label_text(*label, from as int, to as int)));
        i = i + 1;
    }
}

fn draw_facet(
    title: &str,
    subtitle: &str,
    frame: &Frame,
    levels: &Vec<Tick>,
    percentiles: &Vec<Tick>,
    curves: &Vec<Curve>,
    labels: &Vec<CurveLabel>,
    from: usize,
    to: usize,
) -> (r: String)
    requires
        from <= to <= curves@.len(),
        to - from <= theme::SERIES_COUNT,
    ensures
        r@ == svg::document_text(
            frame.w@,
            frame.h@,
            title@,
            subtitle@,
            latency_body(
                title@,
                subtitle@,
                *frame,
                levels@,
                percentiles@,
                curves@,
                labels@,
                from as int,
                to as int,
            ),
        ),
{
    let mut s = Svg::new(frame.w.as_str(), frame.h.as_str());
    draw_head(&mut s, title, subtitle);
    draw_levels(&mut s, levels, frame);
    draw_uprights(&mut s, percentiles, frame);
    draw_caption(&mut s, frame, PERCENTILE_CAPTION);
    draw_legend(&mut s, curves, from, to);
    draw_curves(&mut s, curves, from, to);
    draw_labels(&mut s, labels, from, to);
    s.line(
        frame.left.as_str(),
        frame.top.as_str(),
        frame.left.as_str(),
        frame.bottom.as_str(),
        theme::BORDER_STRONG,
        "1.00",
    );
    s.line(
        frame.left.as_str(),
        frame.bottom.as_str(),
        frame.right.as_str(),
        frame.bottom.as_str(),
        theme::BORDER_STRONG,
        "1.00",
    );
    assert(s.body() =~= latency_body(
        title@,
        subtitle@,
        *frame,
        levels@,
        percentiles@,
        curves@,
        labels@,
        from as int,
        to as int,
    ));
    s.finish(title, subtitle)
}

/// Draws the percentiles of `curves`: one chart, or one after another with the
/// same axes where there are more curves than colours.
pub fn latency_percentiles(
    title: &str,
    subtitle: &str,
    frame: &Frame,
    levels: &Vec<Tick>,
    percentiles: &Vec<Tick>,
    curves: &Vec<Curve>,
    labels: &Vec<CurveLabel>,
) -> (r: Vec<String>)
    ensures
        r@.len() == facet_count(curves@.len() as int),
        forall|k: int|
            0 <= k < r@.len() ==> (#[trigger] r@[k])@ == svg::document_text(
                frame.w@,
                frame.h@,
                title@,
                subtitle@,
                latency_body(
                    title@,
                    subtitle@,
                    *frame,
                    levels@,
                    percentiles@,
                    curves@,
                    labels@,
                    facet_start(k),
                    facet_end(curves@.len() as int, k),
                ),
            ),
{
    let parts = facets(curves.len());
    let mut r: Vec<String> = Vec::new();
    while r.len() < parts.len()
        invariant
            r@.len() <= parts@.len(),
            parts@.len() == facet_count(curves@.len() as int),
            forall|k: int|
                0 <= k < parts@.len() ==> (#[trigger] parts@[k]).0 == facet_start(k) && parts@[k].1
                    == facet_end(curves@.len() as int, k),
            forall|k: int|
                0 <= k < r@.len() ==> (#[trigger] r@[k])@ == svg::document_text(
                    frame.w@,
                    frame.h@,
                    title@,
                    subtitle@,
                    latency_body(
                        title@,
                        subtitle@,
                        *frame,
                        levels@,
                        percentiles@,
                        curves@,
                        labels@,
                        facet_start(k),
                        facet_end(curves@.len() as int, k),
                    ),
                ),
        decreases parts@.len() - r@.len(),
    {
        let (from, to) = parts[r.len()];
        r.push(
            draw_facet(title, subtitle, frame, levels, percentiles, curves, labels, from, to),
        );
    }
    r
}

/// The charts take all series, one after another: the first chart begins with the first
/// series, each goes on where the one before it ends and is full before the next begins,
/// and the last ends with the last series. Without series there is one empty chart.
pub proof fn law_what_each_chart_takes(count: usize, r: Vec<(usize, usize)>, k: int)
    requires
        call_ensures(facets, (count,), r),
        0 <= k < r@.len(),
    ensures
        r@.len() > 0,
        r@[0].0 == 0,
        r@[r@.len() - 1].1 == count,
        k + 1 < r@.len() ==> r@[k + 1].0 == r@[k].1 && r@[k].1 - r@[k].0 == theme::SERIES_COUNT,
        r@[k].1 - r@[k].0 <= theme::SERIES_COUNT,
        count > 0 ==> r@[k].0 < r@[k].1,
        count == 0 ==> r@.len() == 1 && r@[k] == (0usize, 0usize),
{
    let n = count as int;
    law_charts_follow_one_another(n, k);
    law_charts_follow_one_another(n, r@.len() - 1);
    law_there_are_no_more_charts_than_needed(n);
    if count > 0 {
        law_a_series_stands_in_one_chart(n, 0, k);
    }
}

/// There is one drawing for each chart that the series take.
pub proof fn law_as_many_drawings_as_charts(
    title: &str,
    subtitle: &str,
    frame: &Frame,
    levels: &Vec<Tick>,
    percentiles: &Vec<Tick>,
    curves: &Vec<Curve>,
    labels: &Vec<CurveLabel>,
    r: Vec<String>,
    count: usize,
    parts: Vec<(usize, usize)>,
)
    requires
        call_ensures(
            latency_percentiles,
            (title, subtitle, frame, levels, percentiles, curves, labels),
            r,
        ),
        count == curves@.len(),
        call_ensures(facets, (count,), parts),
    ensures
        r@.len() == parts@.len(),
{
}

} // verus!
