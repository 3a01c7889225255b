use vstd::prelude::*;

use crate::chartgen::sorted::SortedMap;
use crate::chartgen::table;
use crate::chartgen::text;

verus! {

/// Which end of the scale is good.
#[derive(Clone, Copy, PartialEq, Eq, Structural)]
pub enum Better {
    Higher,
    Lower,
}

impl Better {
    /// The end that a chart description names.
    pub fn of(lower_is_better: bool) -> (r: Self)
        ensures
            r == if lower_is_better {
                Better::Lower
            } else {
                Better::Higher
            },
    {
        if lower_is_better {
            Better::Lower
        } else {
            Better::Higher
        }
    }
}

/// What a chart says about the end that is good.
pub open spec fn direction(better: Better) -> Seq<char> {
    match better {
        Better::Higher => "higher is better"@,
        Better::Lower => "lower is better"@,
    }
}

/// The subtitle of a chart, which says which end of its scale is good: `subtitle`
/// where that says so already, and with that added otherwise.
pub open spec fn stated(subtitle: Seq<char>, better: Better) -> Seq<char> {
    if text::occurs(subtitle, direction(better)) {
        subtitle
    } else if subtitle.len() == 0 {
        direction(better)
    } else {
        subtitle + " \u{b7} "@ + direction(better)
    }
}

/// Every chart says in its subtitle which end of its scale is good.
pub proof fn law_the_subtitle_states_the_direction(subtitle: Seq<char>, better: Better)
    ensures
        text::occurs(stated(subtitle, better), direction(better)),
{
    let said = stated(subtitle, better);
    let note = direction(better);
    if !text::occurs(subtitle, note) {
        let i = said.len() - note.len();
        assert(said.subrange(i, i + note.len()) =~= note);
        assert(text::stands_at(said, note, i));
    }
}

/// What the subtitle said is kept: it begins the subtitle of the chart, and where it said
/// which end is good it is all of it.
pub proof fn law_the_subtitle_keeps_what_it_said(subtitle: Seq<char>, better: Better)
    ensures
        subtitle.len() <= stated(subtitle, better).len(),
        stated(subtitle, better).take(subtitle.len() as int) == subtitle,
        text::occurs(subtitle, direction(better)) ==> stated(subtitle, better) == subtitle,
        better is Lower ==> direction(better) == "lower is better"@,
        better is Higher ==> direction(better) == "higher is better"@,
{
    assert(stated(subtitle, better).take(subtitle.len() as int) =~= subtitle);
}

/// The subtitle of a chart, which says which end of its scale is good.
pub fn state_direction(subtitle: &str, better: Better) -> (r: String)
    ensures
        r@ == stated(subtitle@, better),
{
    let note = match better {
        Better::Higher => "higher is better",
        Better::Lower => "lower is better",
    };
    if text::contains(subtitle, note) {
        subtitle.to_owned()
    } else if subtitle.unicode_len() == 0 {
        note.to_owned()
    } else {
        let mut r = subtitle.to_owned();
        r.append(" \u{b7} ");
        r.append(note);
        r
    }
}

/// Whether a file named `name` is a table of the kind `kind`.
pub fn is_source(name: &str, kind: &str) -> (r: bool)
    ensures
        r == (kind@.len() <= name@.len() && name@.take(kind@.len() as int) == kind@
            && ".csv"@.len() <= name@.len() && name@.skip(name@.len() - ".csv"@.len())
            == ".csv"@),
{
    text::starts_with(name, kind) && text::ends_with(name, ".csv")
}

/// Whether a field marks its row as the hero.
pub open spec fn hero_mark(field: Seq<char>) -> bool {
    field == "1"@ || text::same_letters(field, "true"@)
}

/// Whether a field marks its row as the hero.
pub fn is_hero(field: &str) -> (r: bool)
    ensures
        r == hero_mark(field@),
{
    text::same(field, "1") || text::eq_ignore_ascii_case(field, "true")
}

/// A bar, with its value as text.
pub struct Bar {
    pub label: String,
    pub value: String,
    pub hero: bool,
}

/// The same, with text as sequences of characters.
pub struct BarView {
    pub label: Seq<char>,
    pub value: Seq<char>,
    pub hero: bool,
}

impl View for Bar {
    type V = BarView;

    open spec fn view(&self) -> BarView {
        BarView { label: self.label@, value: self.value@, hero: self.hero }
    }
}

/// A series, with the percentiles and the latencies of its points as text.
pub struct Series {
    pub name: String,
    pub points: Vec<(String, String)>,
}

/// The same, with text as sequences of characters.
pub struct SeriesView {
    pub name: Seq<char>,
    pub points: Seq<(Seq<char>, Seq<char>)>,
}

impl View for Series {
    type V = SeriesView;

    open spec fn view(&self) -> SeriesView {
        SeriesView {
            name: self.name@,
            points: self.points@.map_values(|p: (String, String)| (p.0@, p.1@)),
        }
    }
}

/// Whether each row has the four fields that a chart needs.
pub open spec fn complete(rows: Seq<Seq<Seq<char>>>) -> bool {
    forall|i: int| 0 <= i < rows.len() ==> (#[trigger] rows[i]).len() >= 4
}

/// Whether each row has the four fields that a chart needs.
pub fn is_complete(rows: &Vec<Vec<String>>) -> (r: bool)
    ensures
        r == complete(table::rows_of(rows@)),
{
    let ghost view = table::rows_of(rows@);
    let mut i: usize = 0;
    while i < rows.len()
        invariant
            i <= rows@.len(),
            view == table::rows_of(rows@),
            forall|j: int| 0 <= j < i ==> (#[trigger] view[j]).len() >= 4,
        decreases rows@.len() - i,
    {
        if rows[i].len() < 4 {
            assert(view[i as int].len() < 4);
            return false;
        }
        i = i + 1;
    }
    true
}

/// Whether a row speaks of the chart `chart`.
pub open spec fn mentions(rows: Seq<Seq<Seq<char>>>, chart: Seq<char>) -> bool {
    exists|i: int| 0 <= i < rows.len() && (#[trigger] rows[i])[0] == chart
}

/// A chart is mentioned exactly where a row begins with its name, and rows are complete
/// exactly where none has fewer than four fields.
pub proof fn law_what_rows_speak_of(rows: Seq<Seq<Seq<char>>>, chart: Seq<char>)
    ensures
        !mentions(rows, chart) <==> (forall|i: int|
            0 <= i < rows.len() ==> (#[trigger] rows[i])[0] != chart),
        !complete(rows) <==> (exists|i: int|
            0 <= i < rows.len() && (#[trigger] rows[i]).len() < 4),
{
}

/// The bars of the chart `chart`, in the order of the rows.
pub open spec fn bars_of(rows: Seq<Seq<Seq<char>>>, chart: Seq<char>) -> Seq<BarView>
    decreases rows.len(),
{
    if rows.len() == 0 {
        Seq::empty()
    } else {
        let rest = bars_of(rows.drop_last(), chart);
        let row = rows.last();
        if row[0] == chart {
            rest.push(BarView { label: row[1], value: row[2], hero: hero_mark(row[3]) })
        } else {
            rest
        }
    }
}

/// A row is a bar of the chart that it names and of no other, with its label, its value
/// and its mark, and bars come in the order of their rows.
pub proof fn law_each_row_is_one_bar(
    first: Seq<Seq<Seq<char>>>,
    second: Seq<Seq<Seq<char>>>,
    row: Seq<Seq<char>>,
    chart: Seq<char>,
)
    ensures
        bars_of(first + second, chart) == bars_of(first, chart) + bars_of(second, chart),
        row[0] == chart ==> bars_of(seq![row], chart) == seq![
            BarView {
                label: row[1],
                value: row[2],
                hero: row[3] == "1"@ || text::same_letters(row[3], "true"@),
            },
        ],
        row[0] != chart ==> bars_of(seq![row], chart).len() == 0,
        bars_of(Seq::empty(), chart).len() == 0,
    decreases second.len(),
{
    let one = seq![row];
    assert(one.drop_last() =~= Seq::<Seq<Seq<char>>>::empty());
    assert(one.last() == row);
    assert(bars_of(one.drop_last(), chart) =~= Seq::<BarView>::empty());
    if row[0] == chart {
        assert(bars_of(one, chart) =~= seq![
            BarView { label: row[1], value: row[2], hero: hero_mark(row[3]) },
        ]);
    }
    if second.len() == 0 {
        assert(first + second =~= first);
        assert(bars_of(first, chart) + bars_of(second, chart) =~= bars_of(first, chart));
    } else {
        law_each_row_is_one_bar(first, second.drop_last(), row, chart);
        assert((first + second).drop_last() =~= first + second.drop_last());
        assert(bars_of(first + second, chart) =~= bars_of(first, chart) + bars_of(second, chart));
    }
}

/// The bars in `bars`, with text as sequences of characters.
pub open spec fn bar_views(bars: Vec<Bar>) -> Seq<BarView> {
    bars@.map_values(|b: Bar| b@)
}

proof fn lemma_mentions(rows: Seq<Seq<Seq<char>>>, i: int, chart: Seq<char>)
    requires
        0 <= i < rows.len(),
    ensures
        mentions(rows.take(i + 1), chart) <==> mentions(rows.take(i), chart) || rows[i][0] == chart,
{
    let now = rows.take(i + 1);
    let was = rows.take(i);
    assert(now[i] == rows[i]);
    if mentions(was, chart) {
        let j = choose|j: int| 0 <= j < was.len() && (#[trigger] was[j])[0] == chart;
        assert(now[j][0] == chart);
    }
    if mentions(now, chart) {
        let j = choose|j: int| 0 <= j < now.len() && (#[trigger] now[j])[0] == chart;
        if j < i {
            assert(was[j][0] == chart);
        }
    }
}

/// The bars of each chart, in the order of the charts' names.
pub fn group_bars(rows: &Vec<Vec<String>>) -> (r: SortedMap<Vec<Bar>>)
    requires
        complete(table::rows_of(rows@)),
    ensures
        r.wf(),
        forall|k: Seq<char>| #[trigger] r.has_key(k) <==> mentions(table::rows_of(rows@), k),
        forall|k: Seq<char>| #[trigger]
            r.has_key(k) ==> bar_views(r.at(k)) == bars_of(table::rows_of(rows@), k),
{
    let ghost all = table::rows_of(rows@);
    let mut r: SortedMap<Vec<Bar>> = SortedMap::new();
    let mut i: usize = 0;
    while i < rows.len()
        invariant
            i <= rows@.len(),
            all == table::rows_of(rows@),
            complete(all),
            r.wf(),
            forall|k: Seq<char>| #[trigger] r.has_key(k) <==> mentions(all.take(i as int), k),
            forall|k: Seq<char>| #[trigger]
                r.has_key(k) ==> bar_views(r.at(k)) == bars_of(all.take(i as int), k),
            forall|k: Seq<char>|
                !(#[trigger] r.has_key(k)) ==> bars_of(all.take(i as int), k).len() == 0,
        decreases rows@.len() - i,
    {
        let row = &rows[i];
        let ghost view = all[i as int];
        assert(view.len() >= 4);
        assert(view =~= row@.map_values(|f: String| f@));
        let ghost before = r;
        let ghost chart = view[0];
        let bar = Bar {
            label: row[1].clone(),
            value: row[2].clone(),
            hero: is_hero(row[3].as_str()),
        };
        let ghost bar_view = bar@;
        let place: usize = r.entry(row[0].as_str(), Vec::new());
        let ghost entered = r;
        let ghost bars = entered.values()[place as int];
        r.value_mut(place).push(bar);
        proof {
            entered.lemma_changed(r, place as int);
            assert(all.take(i + 1).drop_last() =~= all.take(i as int));
            let new_bars = r.values()[place as int];
            assert(bar_views(new_bars) =~= bar_views(bars).push(bar_view));
            assert forall|k: Seq<char>| #[trigger] r.has_key(k) <==> mentions(all.take(i + 1), k) by {
                lemma_mentions(all, i as int, k);
                assert(r.has_key(k) <==> k == chart || entered.has_key(k));
                assert(entered.has_key(k) <==> k == chart || before.has_key(k));
            }
            assert forall|k: Seq<char>| #[trigger] r.has_key(k) implies bar_views(r.at(k))
                == bars_of(all.take(i + 1), k) by {
                assert(r.has_key(k) <==> k == chart || entered.has_key(k));
                assert(entered.has_key(k) <==> k == chart || before.has_key(k));
                if k == chart {
                    if !before.has_key(k) {
                        assert(bar_views(bars) =~= Seq::<BarView>::empty());
                        assert(bars_of(all.take(i as int), k) =~= Seq::<BarView>::empty());
                    }
                } else {
                    assert(r.at(k) == entered.at(k));
                    assert(entered.at(k) == before.at(k));
                }
            }
            assert forall|k: Seq<char>| !(#[trigger] r.has_key(k)) implies bars_of(
                all.take(i + 1),
                k,
            ).len() == 0 by {
                assert(r.has_key(k) <==> k == chart || entered.has_key(k));
                assert(entered.has_key(k) <==> k == chart || before.has_key(k));
                assert(!before.has_key(k));
            }
        }
        i = i + 1;
    }
    assert(all.take(i as int) =~= all);
    r
}

/// Where the series `name` stands among `list`, or the length of `list`.
pub open spec fn place_of_series(list: Seq<SeriesView>, name: Seq<char>) -> int
    decreases list.len(),
{
    if list.len() == 0 || list[0].name == name {
        0
    } else {
        1 + place_of_series(list.skip(1), name)
    }
}

/// `list` after a point of the series `name`: added to it, or to a new series at
/// the end where there is none of that name.
pub open spec fn with_point(
    list: Seq<SeriesView>,
    name: Seq<char>,
    point: (Seq<char>, Seq<char>),
) -> Seq<SeriesView> {
    let i = place_of_series(list, name);
    if i < list.len() {
        list.update(i, SeriesView { name: list[i].name, points: list[i].points.push(point) })
    } else {
        list.push(SeriesView { name, points: seq![point] })
    }
}

/// The series of the chart `chart`, in the order in which they first occur, each
/// with its points in the order of the rows.
pub open spec fn series_of(rows: Seq<Seq<Seq<char>>>, chart: Seq<char>) -> Seq<SeriesView>
    decreases rows.len(),
{
    if rows.len() == 0 {
        Seq::empty()
    } else {
        let rest = series_of(rows.drop_last(), chart);
        let row = rows.last();
        if row[0] == chart {
            with_point(rest, row[1], (row[2], row[3]))
        } else {
            rest
        }
    }
}

/// A point goes to the series of its name, behind the points that this has; all other
/// series stay as they are. Where there is no series of that name, there is one more, at
/// the end, with this point alone.
pub proof fn law_a_point_goes_to_its_series(
    list: Seq<SeriesView>,
    name: Seq<char>,
    point: (Seq<char>, Seq<char>),
    i: int,
)
    ensures
        0 <= i < list.len() && list[i].name == name && (forall|k: int|
            0 <= k < i ==> (#[trigger] list[k]).name != name) ==> with_point(list, name, point)
            == list.update(i, SeriesView { name, points: list[i].points.push(point) }),
        (forall|k: int| 0 <= k < list.len() ==> (#[trigger] list[k]).name != name) ==> with_point(
            list,
            name,
            point,
        ) == list.push(SeriesView { name, points: seq![point] }),
{
    if 0 <= i < list.len() && list[i].name == name && (forall|k: int|
        0 <= k < i ==> (#[trigger] list[k]).name != name) {
        lemma_place_of_series(list, name, i);
    }
    if forall|k: int| 0 <= k < list.len() ==> (#[trigger] list[k]).name != name {
        lemma_place_of_series(list, name, list.len() as int);
    }
}

/// Each row of a chart is one point of the series that it names; rows of other charts are
/// none. No two series of a chart have the same name.
pub proof fn law_each_row_is_one_point(
    rows: Seq<Seq<Seq<char>>>,
    row: Seq<Seq<char>>,
    chart: Seq<char>,
)
    ensures
        row[0] == chart ==> series_of(rows.push(row), chart) == with_point(
            series_of(rows, chart),
            row[1],
            (row[2], row[3]),
        ),
        row[0] != chart ==> series_of(rows.push(row), chart) == series_of(rows, chart),
        series_of(Seq::empty(), chart).len() == 0,
        forall|i: int, j: int|
            0 <= i < j < series_of(rows, chart).len() ==> (#[trigger] series_of(
                rows,
                chart,
            )[i]).name != (#[trigger] series_of(rows, chart)[j]).name,
    decreases rows.len(),
{
    assert(rows.push(row).drop_last() =~= rows);
    if rows.len() > 0 {
        let init = rows.drop_last();
        let last = rows.last();
        law_each_row_is_one_point(init, last, chart);
        let before = series_of(init, chart);
        let after = series_of(rows, chart);
        if last[0] == chart {
            let k = place_of_series(before, last[1]);
            lemma_place_found(before, last[1]);
            assert forall|i: int, j: int| 0 <= i < j < after.len() implies (#[trigger] after[i]).name
                != (#[trigger] after[j]).name by {
                assert(i < before.len() ==> after[i].name == before[i].name);
                assert(j < before.len() ==> after[j].name == before[j].name);
                if j < before.len() {
                    assert(before[i].name != before[j].name);
                }
            }
        }
    }
}

proof fn lemma_place_found(list: Seq<SeriesView>, name: Seq<char>)
    ensures
        0 <= place_of_series(list, name) <= list.len(),
        place_of_series(list, name) < list.len() ==> list[place_of_series(list, name)].name == name,
        forall|k: int|
            0 <= k < place_of_series(list, name) ==> (#[trigger] list[k]).name != name,
    decreases list.len(),
{
    if list.len() > 0 && list[0].name != name {
        lemma_place_found(list.skip(1), name);
        assert forall|k: int| 0 <= k < place_of_series(list, name) implies (#[trigger] list[k]).name
            != name by {
            if k > 0 {
                assert(list.skip(1)[k - 1] == list[k]);
            }
        }
    }
}

/// The series in `list`, with text as sequences of characters.
pub open spec fn series_views(list: Vec<Series>) -> Seq<SeriesView> {
    list@.map_values(|s: Series| s@)
}

proof fn lemma_place_of_series(list: Seq<SeriesView>, name: Seq<char>, k: int)
    requires
        0 <= k <= list.len(),
        forall|i: int| 0 <= i < k ==> (#[trigger] list[i]).name != name,
        k < list.len() ==> list[k].name == name,
    ensures
        place_of_series(list, name) == k,
    decreases k,
{
    if k > 0 {
        assert(list[0].name != name);
        lemma_place_of_series(list.skip(1), name, k - 1);
    }
}

/// Bars and series are seen as they are: each with its own texts, in its place.
pub proof fn law_views_keep_every_part(bars: Vec<Bar>, list: Vec<Series>, i: int, p: int)
    ensures
        bar_views(bars).len() == bars@.len(),
        0 <= i < bars@.len() ==> {
            &&& bar_views(bars)[i].label == bars@[i].label@
            &&& bar_views(bars)[i].value == bars@[i].value@
            &&& bar_views(bars)[i].hero == bars@[i].hero
        },
        series_views(list).len() == list@.len(),
        0 <= i < list@.len() ==> {
            &&& series_views(list)[i].name == list@[i].name@
            &&& series_views(list)[i].points.len() == list@[i].points@.len()
            &&& 0 <= p < list@[i].points@.len() ==> series_views(list)[i].points[p] == (
                list@[i].points@[p].0@,
                list@[i].points@[p].1@,
            )
        },
{
}

/// Adds a point of the series `name`.
fn add_point(list: &mut Vec<Series>, name: &str, point: (String, String))
    ensures
        series_views(*final(list)) == with_point(
            series_views(*old(list)),
            name@,
            (point.0@, point.1@),
        ),
{
    let ghost views = series_views(*list);
    let ghost p = (point.0@, point.1@);
    let len: usize = list.len();
    let mut i: usize = 0;
    while i < len && !text::same(list[i].name.as_str(), name)
        invariant
            i <= len,
            len == list@.len(),
            views == series_views(*list),
            forall|j: int| 0 <= j < i ==> (#[trigger] views[j]).name != name@,
        decreases len - i,
    {
        assert(views[i as int].name != name@);
        i = i + 1;
    }
    proof {
        if i < len {
            assert(views[i as int].name == name@);
        }
        lemma_place_of_series(views, name@, i as int);
    }
    if i == len {
        let mut points: Vec<(String, String)> = Vec::new();
        points.push(point);
        list.push(Series { name: name.to_owned(), points });
        proof {
            let new = list@.last();
            assert(new@.points =~= seq![p]);
            assert(series_views(*list) =~= views.push(new@));
        }
    } else {
        let ghost old_points = list@[i as int]@.points;
        list[i].points.push(point);
        proof {
            let changed = list@[i as int];
            assert(changed@.points =~= old_points.push(p));
            assert(series_views(*list) =~= views.update(
                i as int,
                SeriesView { name: views[i as int].name, points: old_points.push(p) },
            ));
        }
    }
}

/// The series of each chart, in the order of the charts' names.
pub fn group_series(rows: &Vec<Vec<String>>) -> (r: SortedMap<Vec<Series>>)
    requires
        complete(table::rows_of(rows@)),
    ensures
        r.wf(),
        forall|k: Seq<char>| #[trigger] r.has_key(k) <==> mentions(table::rows_of(rows@), k),
        forall|k: Seq<char>| #[trigger]
            r.has_key(k) ==> series_views(r.at(k)) == series_of(table::rows_of(rows@), k),
{
    let ghost all = table::rows_of(rows@);
    let mut r: SortedMap<Vec<Series>> = SortedMap::new();
    let mut i: usize = 0;
    while i < rows.len()
        invariant
            i <= rows@.len(),
            all == table::rows_of(rows@),
            complete(all),
            r.wf(),
            forall|k: Seq<char>| #[trigger] r.has_key(k) <==> mentions(all.take(i as int), k),
            forall|k: Seq<char>| #[trigger]
                r.has_key(k) ==> series_views(r.at(k)) == series_of(all.take(i as int), k),
            forall|k: Seq<char>|
                !(#[trigger] r.has_key(k)) ==> series_of(all.take(i as int), k).len() == 0,
        decreases rows@.len() - i,
    {
        let row = &rows[i];
        let ghost view = all[i as int];
        assert(view.len() >= 4);
        assert(view =~= row@.map_values(|f: String| f@));
        let ghost before = r;
        let ghost chart = view[0];
        let place: usize = r.entry(row[0].as_str(), Vec::new());
        let ghost entered = r;
        let ghost list = entered.values()[place as int];
        add_point(r.value_mut(place), row[1].as_str(), (row[2].clone(), row[3].clone()));
        proof {
            entered.lemma_changed(r, place as int);
            assert(all.take(i + 1).drop_last() =~= all.take(i as int));
            assert forall|k: Seq<char>| #[trigger] r.has_key(k) <==> mentions(all.take(i + 1), k) by {
                lemma_mentions(all, i as int, k);
                assert(r.has_key(k) <==> k == chart || entered.has_key(k));
                assert(entered.has_key(k) <==> k == chart || before.has_key(k));
            }
            assert forall|k: Seq<char>| #[trigger] r.has_key(k) implies series_views(r.at(k))
                == series_of(all.take(i + 1), k) by {
                assert(r.has_key(k) <==> k == chart || entered.has_key(k));
                assert(entered.has_key(k) <==> k == chart || before.has_key(k));
                if k == chart {
                    if !before.has_key(k) {
                        assert(series_views(list) =~= Seq::<SeriesView>::empty());
                        assert(series_of(all.take(i as int), k) =~= Seq::<SeriesView>::empty());
                    }
                } else {
                    assert(r.at(k) == entered.at(k));
                    assert(entered.at(k) == before.at(k));
                }
            }
            assert forall|k: Seq<char>| !(#[trigger] r.has_key(k)) implies series_of(
                all.take(i + 1),
                k,
            ).len() == 0 by {
                assert(r.has_key(k) <==> k == chart || entered.has_key(k));
                assert(entered.has_key(k) <==> k == chart || before.has_key(k));
                assert(!before.has_key(k));
            }
        }
        i = i + 1;
    }
    assert(all.take(i as int) =~= all);
    r
}

/// A file is a table of a kind exactly where its name begins with the kind and ends as
/// tables do. A chart says which end of its scale is the better one.
pub proof fn law_which_files_are_tables(
    name: &str,
    kind: &str,
    r: bool,
    rest: Seq<char>,
    front: Seq<char>,
    lower_is_better: bool,
    better: Better,
)
    requires
        call_ensures(is_source, (name, kind), r),
        call_ensures(Better::of, (lower_is_better,), better),
    ensures
        name@ == kind@ + rest && name@ == front + seq!['.', 'c', 's', 'v'] ==> r,
        r ==> name@ == kind@ + name@.skip(kind@.len() as int),
        r ==> name@ == name@.take(name@.len() - 4) + seq!['.', 'c', 's', 'v'],
        better is Lower <==> lower_is_better,
{
    reveal_strlit(".csv");
    let csv = seq!['.', 'c', 's', 'v'];
    assert(".csv"@ =~= csv);
    if name@ == kind@ + rest {
        assert(name@.take(kind@.len() as int) =~= kind@);
    }
    if name@ == front + csv {
        assert(name@.skip(name@.len() - 4) =~= csv);
    }
    if r {
        assert(name@ =~= kind@ + name@.skip(kind@.len() as int));
        assert(name@ =~= name@.take(name@.len() - 4) + csv);
    }
}

/// A field marks the hero exactly where it is the figure one, or the word `true` in
/// letters of either case.
pub proof fn law_what_marks_the_hero(field: &str, r: bool)
    requires
        call_ensures(is_hero, (field,), r),
    ensures
        r <==> field@ == seq!['1'] || {
            &&& field@.len() == 4
            &&& field@[0] == 't' || field@[0] == 'T'
            &&& field@[1] == 'r' || field@[1] == 'R'
            &&& field@[2] == 'u' || field@[2] == 'U'
            &&& field@[3] == 'e' || field@[3] == 'E'
        },
{
    reveal_strlit("1");
    reveal_strlit("true");
    assert("1"@ =~= seq!['1']);
    let word = seq!['t', 'r', 'u', 'e'];
    assert("true"@ =~= word);
    if field@.len() == 4 {
        text::law_case_of_letters(field@[0], 't');
        text::law_case_of_letters(field@[1], 'r');
        text::law_case_of_letters(field@[2], 'u');
        text::law_case_of_letters(field@[3], 'e');
        if text::same_letters(field@, word) {
            assert(text::lower(field@[0]) == text::lower(word[0]));
            assert(text::lower(field@[1]) == text::lower(word[1]));
            assert(text::lower(field@[2]) == text::lower(word[2]));
            assert(text::lower(field@[3]) == text::lower(word[3]));
        }
    }
}

} // verus!
