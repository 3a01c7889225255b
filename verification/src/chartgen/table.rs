use vstd::prelude::*;

use crate::chartgen::sorted::SortedMap;
use crate::chartgen::text;

verus! {

/// What a file says about a chart.
pub struct Meta {
    pub title: String,
    pub subtitle: String,
    pub unit: String,
    /// Whether a smaller value is a better one.
    pub lower_is_better: bool,
}

/// The same, with text as sequences of characters.
pub struct MetaView {
    pub title: Seq<char>,
    pub subtitle: Seq<char>,
    pub unit: Seq<char>,
    pub lower_is_better: bool,
}

impl View for Meta {
    type V = MetaView;

    open spec fn view(&self) -> MetaView {
        MetaView {
            title: self.title@,
            subtitle: self.subtitle@,
            unit: self.unit@,
            lower_is_better: self.lower_is_better,
        }
    }
}

impl MetaView {
    /// Nothing has been said.
    pub open spec fn blank() -> Self {
        MetaView {
            title: Seq::empty(),
            subtitle: Seq::empty(),
            unit: Seq::empty(),
            lower_is_better: false,
        }
    }

    /// After a directive that gives `key` the value `val`.
    pub open spec fn directed(self, key: Seq<char>, val: Seq<char>) -> Self {
        if key == "title"@ {
            MetaView { title: val, ..self }
        } else if key == "subtitle"@ {
            MetaView { subtitle: val, ..self }
        } else if key == "unit"@ {
            MetaView { unit: val, ..self }
        } else if key == "better"@ {
            MetaView { lower_is_better: text::same_letters(val, "lower"@), ..self }
        } else {
            self
        }
    }
}

/// A directive sets what it names, and nothing else. One with another name says nothing.
pub proof fn law_a_directive_sets_what_it_names(meta: MetaView, key: Seq<char>, val: Seq<char>)
    ensures
        ({
            let after = meta.directed(key, val);
            &&& after.title == if key == "title"@ {
                val
            } else {
                meta.title
            }
            &&& key == "subtitle"@ ==> after.subtitle == val
            &&& key != "subtitle"@ ==> after.subtitle == meta.subtitle
            &&& key == "unit"@ ==> after.unit == val
            &&& key != "unit"@ ==> after.unit == meta.unit
            &&& key == "better"@ ==> (after.lower_is_better <==> text::same_letters(val, "lower"@))
            &&& key != "better"@ ==> after.lower_is_better == meta.lower_is_better
        }),
        MetaView::blank().title.len() == 0,
        MetaView::blank().subtitle.len() == 0,
        MetaView::blank().unit.len() == 0,
        !MetaView::blank().lower_is_better,
{
    reveal_strlit("title");
    reveal_strlit("subtitle");
    reveal_strlit("unit");
    reveal_strlit("better");
    assert("title"@.len() == 5 && "subtitle"@.len() == 8 && "unit"@.len() == 4 && "better"@.len()
        == 6);
}

impl Default for Meta {
    fn default() -> (r: Self)
        ensures
            r@ == MetaView::blank(),
    {
        let r = Meta {
            title: String::new(),
            subtitle: String::new(),
            unit: String::new(),
            lower_is_better: false,
        };
        proof {
            assert(r.title@ =~= Seq::<char>::empty());
            assert(r.subtitle@ =~= Seq::<char>::empty());
            assert(r.unit@ =~= Seq::<char>::empty());
        }
        r
    }
}

impl Meta {
    /// Follows a directive that gives `key` the value `val`.
    fn direct(&mut self, key: &str, val: &str)
        ensures
            final(self)@ == old(self)@.directed(key@, val@),
    {
        if text::same(key, "title") {
            self.title = val.to_owned();
        } else if text::same(key, "subtitle") {
            self.subtitle = val.to_owned();
        } else if text::same(key, "unit") {
            self.unit = val.to_owned();
        } else if text::same(key, "better") {
            self.lower_is_better = text::eq_ignore_ascii_case(val, "lower");
        }
    }

    fn duplicate(&self) -> (r: Self)
        ensures
            r@ == self@,
    {
        Meta {
            title: self.title.clone(),
            subtitle: self.subtitle.clone(),
            unit: self.unit.clone(),
            lower_is_better: self.lower_is_better,
        }
    }
}

/// What to say about the chart `chart`: what `meta` says, where a chart without a
/// title bears its own name.
pub fn cloned_or_default(meta: Option<&Meta>, chart: &str) -> (r: Meta)
    ensures
        r@ == match meta {
            Some(m) => if m@.title.len() == 0 {
                MetaView { title: chart@, ..m@ }
            } else {
                m@
            },
            None => MetaView { title: chart@, ..MetaView::blank() },
        },
{
    match meta {
        Some(m) => {
            let mut r = m.duplicate();
            if r.title.as_str().unicode_len() == 0 {
                r.title = chart.to_owned();
            }
            r
        },
        None => {
            let mut r = Meta::default();
            r.title = chart.to_owned();
            r
        },
    }
}

/// The fields of a line, each without white space at its ends.
pub open spec fn fields_of(line: Seq<char>) -> Seq<Seq<char>> {
    text::pieces(line, ',').map_values(|f: Seq<char>| text::trimmed(f))
}

/// A line without a comma is one field, without white space at its ends, and the fields
/// of two lines with a comma between them are those of the first and then those of the
/// second.
pub proof fn law_commas_part_fields(a: Seq<char>, b: Seq<char>)
    ensures
        fields_of(a + seq![','] + b) == fields_of(a) + fields_of(b),
        (forall|k: int| 0 <= k < a.len() ==> #[trigger] a[k] != ',') ==> fields_of(a) == seq![
            text::trimmed(a),
        ],
{
    text::law_pieces_lie_between_the_characters(a, b, ',');
    assert(fields_of(a + seq![','] + b) =~= fields_of(a) + fields_of(b));
    if forall|k: int| 0 <= k < a.len() ==> #[trigger] a[k] != ',' {
        assert(fields_of(a) =~= seq![text::trimmed(a)]);
    }
}

/// The fields of a line that commas part, each without white space at its ends.
pub fn fields(line: &str) -> (r: Vec<String>)
    ensures
        r@.map_values(|f: String| f@) == fields_of(line@),
{
    let parts = text::split(line, ',');
    let mut r: Vec<String> = Vec::new();
    let mut i: usize = 0;
    let ghost raw = parts@.map_values(|p: &str| p@);
    while i < parts.len()
        invariant
            i <= parts@.len(),
            raw == parts@.map_values(|p: &str| p@),
            r@.len() == i,
            forall|j: int| 0 <= j < i ==> (#[trigger] r@[j])@ == text::trimmed(raw[j]),
        decreases parts@.len() - i,
    {
        r.push(text::trim(parts[i]).to_owned());
        i = i + 1;
    }
    assert(r@.map_values(|f: String| f@) =~= fields_of(line@));
    r
}

/// What a file holds, as contracts see it: what it says about charts, and its
/// rows of fields.
pub struct TableView {
    pub meta: Map<Seq<char>, MetaView>,
    pub rows: Seq<Seq<Seq<char>>>,
}

/// What `meta` says about `chart`.
pub open spec fn meta_of(meta: Map<Seq<char>, MetaView>, chart: Seq<char>) -> MetaView {
    if meta.contains_key(chart) {
        meta[chart]
    } else {
        MetaView::blank()
    }
}

impl TableView {
    pub open spec fn empty() -> Self {
        TableView { meta: Map::empty(), rows: Seq::empty() }
    }

    /// After a directive, of which `rest` is what follows its mark: a key, a
    /// chart and a value, parted by the first two colons. What has fewer parts is
    /// a comment.
    pub open spec fn with_directive(self, rest: Seq<char>) -> Self {
        let i = text::first_of(rest, ':');
        let after = rest.skip(i + 1);
        let j = text::first_of(after, ':');
        if i >= rest.len() || j >= after.len() {
            self
        } else {
            let key = text::trimmed(rest.take(i));
            let chart = text::trimmed(after.take(j));
            let val = text::trimmed(after.skip(j + 1));
            TableView {
                meta: self.meta.insert(chart, meta_of(self.meta, chart).directed(key, val)),
                ..self
            }
        }
    }

    /// After the line `line`: a directive where it begins with `#`, nothing where
    /// it is blank, and a row otherwise.
    pub open spec fn with_line(self, line: Seq<char>) -> Self {
        let line = text::trimmed(line);
        if line.len() == 0 {
            self
        } else if line[0] == '#' {
            self.with_directive(line.skip(1))
        } else {
            TableView { rows: self.rows.push(fields_of(line)), ..self }
        }
    }

    /// What the lines `lines` hold.
    pub open spec fn of_lines(lines: Seq<Seq<char>>) -> Self
        decreases lines.len(),
    {
        if lines.len() == 0 {
            Self::empty()
        } else {
            Self::of_lines(lines.drop_last()).with_line(lines.last())
        }
    }

    /// What the text `raw` holds.
    pub open spec fn of_text(raw: Seq<char>) -> Self {
        Self::of_lines(text::pieces(raw, '\n'))
    }

    /// What this and then `other` hold, where `other` has the last word on each
    /// chart that it speaks of.
    pub open spec fn then_holds(self, other: Self) -> Self {
        TableView {
            meta: self.meta.union_prefer_right(other.meta),
            rows: self.rows + other.rows,
        }
    }

    /// What a line adds: nothing where it is blank, its fields as one more row where it
    /// does not begin with the mark of a directive, and otherwise no row.
    pub proof fn law_what_a_line_adds(self, line: Seq<char>)
        ensures
            ({
                let said = text::trimmed(line);
                let after = self.with_line(line);
                &&& said.len() == 0 ==> after == self
                &&& said.len() > 0 && said[0] != '#' ==> {
                    &&& after.rows == self.rows.push(fields_of(said))
                    &&& after.meta == self.meta
                }
                &&& said.len() > 0 && said[0] == '#' ==> after.rows == self.rows
            }),
    {
    }

    /// What a directive says: after the mark a key, a chart and a value, parted by two
    /// colons. It changes what is said about that chart alone, by what was said before.
    /// Later colons belong to the value. A line with fewer colons says nothing.
    pub proof fn law_what_a_directive_says(
        self,
        key: Seq<char>,
        chart: Seq<char>,
        val: Seq<char>,
        other: Seq<char>,
    )
        requires
            forall|k: int| 0 <= k < key.len() ==> #[trigger] key[k] != ':',
            forall|k: int| 0 <= k < chart.len() ==> #[trigger] chart[k] != ':',
        ensures
            ({
                let name = text::trimmed(chart);
                let after = self.with_directive(key + seq![':'] + (chart + seq![':'] + val));
                &&& after.rows == self.rows
                &&& after.meta.contains_key(name)
                &&& self.meta.contains_key(name) ==> after.meta[name] == self.meta[name].directed(
                    text::trimmed(key),
                    text::trimmed(val),
                )
                &&& !self.meta.contains_key(name) ==> after.meta[name]
                    == MetaView::blank().directed(text::trimmed(key), text::trimmed(val))
                &&& other != name ==> after.meta.contains_key(other) == self.meta.contains_key(
                    other,
                ) && (self.meta.contains_key(other) ==> after.meta[other] == self.meta[other])
            }),
            self.with_directive(key) == self,
            self.with_directive(key + seq![':'] + chart) == self,
    {
        let rest = key + seq![':'] + (chart + seq![':'] + val);
        lemma_first_of_parts(key, chart + seq![':'] + val, ':');
        lemma_first_of_parts(chart, val, ':');
        lemma_first_of_parts(key, chart, ':');
        text::law_where_a_character_first_occurs(key, ':');
        text::law_where_a_character_first_occurs(chart, ':');
        assert(rest.skip(key.len() as int + 1) =~= chart + seq![':'] + val);
        assert(rest.take(key.len() as int) =~= key);
        let after = chart + seq![':'] + val;
        assert(after.take(chart.len() as int) =~= chart);
        assert(after.skip(chart.len() as int + 1) =~= val);
        assert((key + seq![':'] + chart).skip(key.len() as int + 1) =~= chart);
    }

    /// Lines are read one after another: the rows of all are those of the first lines and
    /// then those of the others, and a file without lines holds nothing.
    pub proof fn law_lines_are_read_in_order(
        first: Seq<Seq<char>>,
        second: Seq<Seq<char>>,
        line: Seq<char>,
    )
        ensures
            Self::of_lines(first + second).rows == Self::of_lines(first).rows + Self::of_lines(
                second,
            ).rows,
            Self::of_lines(first.push(line)) == Self::of_lines(first).with_line(line),
            Self::of_lines(Seq::empty()).rows.len() == 0,
            forall|chart: Seq<char>| !(#[trigger] Self::of_lines(Seq::empty()).meta.contains_key(
                chart,
            )),
        decreases second.len(),
    {
        assert(first.push(line).drop_last() =~= first);
        if second.len() == 0 {
            assert(first + second =~= first);
            assert(Self::of_lines(first).rows + Self::of_lines(second).rows =~= Self::of_lines(
                first,
            ).rows);
        } else {
            Self::law_lines_are_read_in_order(first, second.drop_last(), line);
            assert((first + second).drop_last() =~= first + second.drop_last());
            assert((first + second).last() == second.last());
            assert(Self::of_lines(first + second).rows =~= Self::of_lines(first).rows
                + Self::of_lines(second).rows);
        }
    }

    /// Of two files, the rows of the second come after those of the first, and the second
    /// has the last word on every chart that it speaks of, and on no other.
    pub proof fn law_the_later_file_has_the_last_word(self, other: Self, chart: Seq<char>)
        ensures
            self.then_holds(other).rows == self.rows + other.rows,
            self.then_holds(other).meta.contains_key(chart) <==> self.meta.contains_key(chart)
                || other.meta.contains_key(chart),
            other.meta.contains_key(chart) ==> self.then_holds(other).meta[chart]
                == other.meta[chart],
            !other.meta.contains_key(chart) && self.meta.contains_key(chart) ==> self.then_holds(
                other,
            ).meta[chart] == self.meta[chart],
    {
    }
}

proof fn lemma_first_of_parts(a: Seq<char>, b: Seq<char>, c: char)
    requires
        forall|k: int| 0 <= k < a.len() ==> #[trigger] a[k] != c,
    ensures
        text::first_of(a + seq![c] + b, c) == a.len(),
{
    let s = a + seq![c] + b;
    text::law_where_a_character_first_occurs(s, c);
    assert(s[a.len() as int] == c);
    let j = text::first_of(s, c);
    if j < a.len() {
        assert(s[j] == a[j]);
    }
}

/// What a file holds: what it says about charts, and its rows of fields.
pub struct Table {
    pub meta: SortedMap<Meta>,
    pub rows: Vec<Vec<String>>,
}

/// What a map of chart descriptions says.
pub open spec fn metas(map: SortedMap<Meta>) -> Map<Seq<char>, MetaView> {
    Map::new(|k: Seq<char>| map.has_key(k), |k: Seq<char>| map.at(k)@)
}

/// Rows of fields, with text as sequences of characters.
pub open spec fn rows_of(rows: Seq<Vec<String>>) -> Seq<Seq<Seq<char>>> {
    rows.map_values(|r: Vec<String>| r@.map_values(|f: String| f@))
}

/// A table is seen as it is: every field of every row in its place, and for every chart
/// what is said about it.
pub proof fn law_a_table_is_seen_as_it_is(
    rows: Seq<Vec<String>>,
    map: SortedMap<Meta>,
    chart: Seq<char>,
    i: int,
    j: int,
)
    ensures
        rows_of(rows).len() == rows.len(),
        0 <= i < rows.len() ==> rows_of(rows)[i].len() == rows[i]@.len(),
        0 <= i < rows.len() && 0 <= j < rows[i]@.len() ==> rows_of(rows)[i][j] == rows[i]@[j]@,
        metas(map).contains_key(chart) <==> map.has_key(chart),
        map.has_key(chart) ==> {
            &&& metas(map)[chart].title == map.at(chart).title@
            &&& metas(map)[chart].subtitle == map.at(chart).subtitle@
            &&& metas(map)[chart].unit == map.at(chart).unit@
            &&& metas(map)[chart].lower_is_better == map.at(chart).lower_is_better
        },
{
}

impl View for Table {
    type V = TableView;

    open spec fn view(&self) -> TableView {
        TableView { meta: metas(self.meta), rows: rows_of(self.rows@) }
    }
}

impl Table {
    pub open spec fn wf(self) -> bool {
        self.meta.wf()
    }

    pub fn new() -> (r: Self)
        ensures
            r.wf(),
            r@ == TableView::empty(),
    {
        let r = Table { meta: SortedMap::new(), rows: Vec::new() };
        proof {
            assert(metas(r.meta) =~= Map::<Seq<char>, MetaView>::empty());
            assert(rows_of(r.rows@) =~= Seq::<Seq<Seq<char>>>::empty());
        }
        r
    }

    /// Follows a directive, of which `rest` is what comes after its mark.
    fn read_directive(&mut self, rest: &str)
        requires
            old(self).wf(),
        ensures
            final(self).wf(),
            final(self)@ == old(self)@.with_directive(rest@),
    {
        let ghost before = *self;
        let i: usize = text::find(rest, ':');
        let len: usize = rest.unicode_len();
        if i == len {
            return;
        }
        let after = rest.substring_char(i + 1, len);
        assert(after@ =~= rest@.skip(i + 1));
        let j: usize = text::find(after, ':');
        let after_len: usize = after.unicode_len();
        if j == after_len {
            return;
        }
        let key = rest.substring_char(0, i);
        let chart = after.substring_char(0, j);
        let val = after.substring_char(j + 1, after_len);
        proof {
            assert(key@ =~= rest@.take(i as int));
            assert(chart@ =~= after@.take(j as int));
            assert(val@ =~= after@.skip(j + 1));
        }
        let key = text::trim(key);
        let chart = text::trim(chart);
        let val = text::trim(val);
        let place: usize = self.meta.entry(chart, Meta::default());
        let ghost entered = self.meta;
        self.meta.value_mut(place).direct(key, val);
        proof {
            entered.lemma_changed(self.meta, place as int);
            let old_metas = metas(before.meta);
            let said = meta_of(old_metas, chart@).directed(key@, val@);
            assert(entered.values()[place as int]@ == meta_of(old_metas, chart@));
            assert forall|k: Seq<char>| #[trigger] metas(self.meta).contains_key(k)
                == old_metas.insert(chart@, said).contains_key(k) by {
                assert(self.meta.has_key(k) <==> k == chart@ || entered.has_key(k));
                assert(entered.has_key(k) <==> k == chart@ || before.meta.has_key(k));
            }
            assert forall|k: Seq<char>| #[trigger] metas(self.meta).contains_key(k) implies metas(
                self.meta,
            )[k] == old_metas.insert(chart@, said)[k] by {
                assert(self.meta.has_key(k) <==> k == chart@ || entered.has_key(k));
                assert(entered.has_key(k) <==> k == chart@ || before.meta.has_key(k));
                if k != chart@ {
                    assert(self.meta.at(k) == entered.at(k));
                    assert(entered.at(k) == before.meta.at(k));
                }
            }
            assert(metas(self.meta) =~= old_metas.insert(chart@, said));
        }
    }

    /// Reads a line.
    fn read_line(&mut self, line: &str)
        requires
            old(self).wf(),
        ensures
            final(self).wf(),
            final(self)@ == old(self)@.with_line(line@),
    {
        let line = text::trim(line);
        let len: usize = line.unicode_len();
        if len == 0 {
            return;
        }
        if line.get_char(0) == '#' {
            let rest = line.substring_char(1, len);
            assert(rest@ =~= line@.skip(1));
            self.read_directive(rest);
            return;
        }
        let ghost before = self.rows@;
        self.rows.push(fields(line));
        assert(rows_of(self.rows@) =~= rows_of(before).push(fields_of(line@)));
    }

    /// Reads the text `raw`.
    pub fn load(raw: &str) -> (r: Self)
        ensures
            r.wf(),
            r@ == TableView::of_text(raw@),
    {
        let lines = text::split(raw, '\n');
        let ghost all = lines@.map_values(|p: &str| p@);
        let mut r = Table::new();
        let mut i: usize = 0;
        assert(all.take(0) =~= Seq::<Seq<char>>::empty());
        while i < lines.len()
            invariant
                i <= lines@.len(),
                all == lines@.map_values(|p: &str| p@),
                r.wf(),
                r@ == TableView::of_lines(all.take(i as int)),
            decreases lines@.len() - i,
        {
            proof {
                assert(all.take(i + 1).drop_last() =~= all.take(i as int));
                assert(all.take(i + 1).last() == lines@[i as int]@);
            }
            r.read_line(lines[i]);
            i = i + 1;
        }
        assert(all.take(i as int) =~= all);
        r
    }

    /// Adds what `other` holds.
    pub fn extend(&mut self, other: Table)
        requires
            old(self).wf(),
            other.wf(),
        ensures
            final(self).wf(),
            final(self)@ == old(self)@.then_holds(other@),
    {
        let ghost first = *self;
        let ghost second = other;
        let len: usize = other.meta.len();
        let mut i: usize = 0;
        while i < len
            invariant
                i <= len,
                len == other.meta.keys().len(),
                other.meta.wf(),
                self.wf(),
                self.rows == first.rows,
                forall|k: Seq<char>|
                    #![trigger self.meta.has_key(k)]
                    self.meta.has_key(k) <==> first.meta.has_key(k) || (other.meta.has_key(k)
                        && other.meta.place_of(k) < i),
                forall|k: Seq<char>|
                    #![trigger self.meta.at(k)]
                    self.meta.has_key(k) ==> self.meta.at(k)@ == if other.meta.has_key(k)
                        && other.meta.place_of(k) < i {
                        other.meta.at(k)@
                    } else {
                        first.meta.at(k)@
                    },
            decreases len - i,
        {
            let ghost before = self.meta;
            let ghost key = other.meta.keys()[i as int];
            self.meta.set(other.meta.key(i), other.meta.value(i).duplicate());
            proof {
                other.meta.lemma_at(i as int);
                other.meta.lemma_unique(i as int, other.meta.place_of(key));
                assert forall|k: Seq<char>|
                    #![trigger self.meta.has_key(k)]
                    self.meta.has_key(k) <==> first.meta.has_key(k) || (other.meta.has_key(k)
                        && other.meta.place_of(k) < i + 1) by {
                    assert(self.meta.has_key(k) <==> k == key || before.has_key(k));
                    if other.meta.has_key(k) && other.meta.place_of(k) == i {
                        assert(k == key);
                    }
                }
                assert forall|k: Seq<char>|
                    #![trigger self.meta.at(k)]
                    self.meta.has_key(k) implies self.meta.at(k)@ == if other.meta.has_key(k)
                    && other.meta.place_of(k) < i + 1 {
                    other.meta.at(k)@
                } else {
                    first.meta.at(k)@
                } by {
                    assert(self.meta.has_key(k) <==> k == key || before.has_key(k));
                    if k != key {
                        assert(self.meta.at(k) == before.at(k));
                        if other.meta.has_key(k) && other.meta.place_of(k) == i {
                            assert(k == key);
                        }
                    }
                }
            }
            i = i + 1;
        }
        let mut rows = other.rows;
        self.rows.append(&mut rows);
        proof {
            assert forall|k: Seq<char>| second.meta.has_key(k) implies second.meta.place_of(k)
                < len by {}
            let both = metas(first.meta).union_prefer_right(metas(second.meta));
            assert forall|k: Seq<char>| #[trigger] metas(self.meta).contains_key(k)
                == both.contains_key(k) by {
                assert(self.meta.has_key(k) <==> first.meta.has_key(k) || second.meta.has_key(k));
            }
            assert forall|k: Seq<char>| #[trigger] metas(self.meta).contains_key(k) implies metas(
                self.meta,
            )[k] == both[k] by {
                assert(self.meta.has_key(k));
                assert(self.meta.at(k)@ == metas(self.meta)[k]);
            }
            assert(metas(self.meta) =~= both);
            assert(rows_of(self.rows@) =~= rows_of(first.rows@) + rows_of(second.rows@));
        }
    }
}

/// What is said about a chart is what was read of it; only where that has no title, or
/// nothing was read, does the chart's own name stand as its title.
pub proof fn law_a_chart_without_a_title_bears_its_name(
    meta: Meta,
    chart: &str,
    r: Meta,
    s: Meta,
)
    requires
        call_ensures(cloned_or_default, (Some(&meta), chart), r),
        call_ensures(cloned_or_default, (None, chart), s),
    ensures
        meta@.title.len() > 0 ==> r@ == meta@,
        meta@.title.len() == 0 ==> r@.title == chart@,
        r@ == (MetaView { title: r@.title, ..meta@ }),
        s@.title == chart@,
        s@ == (MetaView { title: chart@, ..MetaView::blank() }),
{
}

} // verus!
