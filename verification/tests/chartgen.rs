use cynosure::chartgen::charts::{
    group_bars, group_series, is_complete, is_hero, is_source, state_direction, Better,
};
use cynosure::chartgen::draw::{
    bars_chart, facets, latency_percentiles, widest, BarMark, Curve, CurveLabel, Frame, Tick,
};
use cynosure::chartgen::order::{arranged, order, rank_of};
use cynosure::chartgen::sorted::SortedMap;
use cynosure::chartgen::svg::{decimal, esc, n, Anchor, Svg};
use cynosure::chartgen::table::{cloned_or_default, fields, Meta, Table};
use cynosure::chartgen::text;
use cynosure::chartgen::theme;

fn texts(list: &[&str]) -> Vec<String> {
    list.iter().map(|s| s.to_string()).collect()
}

#[test]
fn chartgen_fields_are_trimmed() {
    assert_eq!(fields("a, b ,c,, d"), texts(&["a", "b", "c", "", "d"]));
    assert_eq!(fields(""), texts(&[""]));
    assert_eq!(fields(" \u{a0}x\t"), texts(&["x"]));
}

#[test]
fn chartgen_table_reads_directives_and_rows() {
    let t = Table::load(
        "#title:mpsc: MPSC: four producers \n\
         # unit : mpsc : Mops/s\r\n\
         #better:lat:LOWER\n\
         #subtitle:lat:idle\n\
         # a plain comment\n\
         #also: plain\n\
         #other:misc:ignored\n\
         \n\
         mpsc, cynosure , 12.5 ,1\n\
         \x20 mpsc,tokio,3,0\n",
    );
    assert_eq!(t.rows.len(), 2);
    assert_eq!(t.rows[0], texts(&["mpsc", "cynosure", "12.5", "1"]));
    assert_eq!(t.rows[1], texts(&["mpsc", "tokio", "3", "0"]));
    let m = t.meta.get("mpsc").unwrap();
    assert_eq!(m.title, "MPSC: four producers");
    assert_eq!(m.unit, "Mops/s");
    assert!(!m.lower_is_better);
    let m = t.meta.get("lat").unwrap();
    assert!(m.lower_is_better);
    assert_eq!(m.subtitle, "idle");
    // A directive with an unknown key still enters its chart.
    assert_eq!(t.meta.len(), 3);
    assert!(t.meta.get("misc").is_some());
    assert!(t.meta.get("also").is_none());
}

#[test]
fn chartgen_later_tables_have_the_last_word() {
    let mut t = Table::load("#title:a:first\n#unit:a:ops\n#title:b:kept\na,x,1,0\n");
    t.extend(Table::load("#title:a:second\na,y,2,1\n"));
    assert_eq!(t.rows.len(), 2);
    assert_eq!(t.rows[1][1], "y");
    let m = t.meta.get("a").unwrap();
    assert_eq!(m.title, "second");
    assert_eq!(m.unit, "", "the whole description is replaced");
    assert_eq!(t.meta.get("b").unwrap().title, "kept");
}

#[test]
fn chartgen_charts_without_title_bear_their_name() {
    let m = cloned_or_default(None, "spsc");
    assert_eq!(m.title, "spsc");
    assert_eq!(m.unit, "");
    let mut said = Meta::default();
    said.unit = "ns".to_string();
    said.lower_is_better = true;
    let m = cloned_or_default(Some(&said), "spsc");
    assert_eq!(m.title, "spsc");
    assert_eq!(m.unit, "ns");
    assert!(m.lower_is_better);
    said.title = "SPSC".to_string();
    assert_eq!(cloned_or_default(Some(&said), "spsc").title, "SPSC");
}

#[test]
fn chartgen_bars_are_grouped_by_chart() {
    let t = Table::load("z,a,1,0\nb,c,2,1\nz,d,3,TRUE\nb,e,4,yes\n");
    assert!(is_complete(&t.rows));
    let g = group_bars(&t.rows);
    assert_eq!(g.len(), 2);
    assert_eq!(g.key(0), "b");
    assert_eq!(g.key(1), "z");
    let b = g.value(0);
    assert_eq!(b.len(), 2);
    assert_eq!(b[0].label, "c");
    assert!(b[0].hero);
    assert!(!b[1].hero);
    let z = g.get("z").unwrap();
    assert_eq!(z[0].value, "1");
    assert_eq!(z[1].label, "d");
    assert!(z[1].hero);
    assert!(!is_complete(&Table::load("a,b,c\n").rows));
}

#[test]
fn chartgen_series_keep_their_first_order() {
    let t = Table::load("c,late,0.5,10\nc,early,0.5,20\nc,late,0.9,30\n");
    let g = group_series(&t.rows);
    assert_eq!(g.len(), 1);
    let list = g.value(0);
    assert_eq!(list.len(), 2);
    assert_eq!(list[0].name, "late");
    assert_eq!(
        list[0].points,
        vec![
            ("0.5".to_string(), "10".to_string()),
            ("0.9".to_string(), "30".to_string())
        ]
    );
    assert_eq!(list[1].name, "early");
}

#[test]
fn chartgen_sources_are_known_by_name() {
    assert!(is_source("throughput.csv", "throughput"));
    assert!(is_source("throughput-measured.csv", "throughput"));
    assert!(!is_source("latency.csv", "throughput"));
    assert!(!is_source("throughput.txt", "throughput"));
    assert!(is_hero("1"));
    assert!(is_hero("True"));
    assert!(!is_hero("01"));
}

#[test]
fn chartgen_best_comes_first() {
    let values = [2.0f64, -1.0, 5.0, 2.0, -0.0, 0.0];
    let keys: Vec<u64> = values.iter().map(|v| v.to_bits()).collect();
    assert_eq!(order(&keys, Better::Lower), vec![1, 4, 5, 0, 3, 2]);
    assert_eq!(order(&keys, Better::Higher), vec![2, 0, 3, 5, 4, 1]);
    assert_eq!(order(&Vec::new(), Better::Higher), Vec::<usize>::new());
    assert!(Better::of(true) == Better::Lower);
    assert!(Better::of(false) == Better::Higher);

    let mut sorted = values.to_vec();
    sorted.sort_by(|a, b| a.total_cmp(b));
    let placed: Vec<u64> = order(&keys, Better::Lower)
        .iter()
        .map(|&i| keys[i])
        .collect();
    let expected: Vec<u64> = sorted.iter().map(|v| v.to_bits()).collect();
    assert_eq!(placed, expected);
    assert_eq!(rank_of(0), 0);
    assert_eq!(rank_of((-0.0f64).to_bits()), -1);
    assert_eq!(rank_of(u64::MAX), i64::MIN);
}

#[test]
fn chartgen_escaping() {
    assert_eq!(
        esc("<a href=\"x\">it's & done</a>"),
        "&lt;a href=&quot;x&quot;&gt;it&apos;s &amp; done&lt;/a&gt;"
    );
    assert_eq!(esc("&amp;"), "&amp;amp;");
    assert_eq!(esc("\u{b5}s"), "\u{b5}s");
}

#[test]
fn chartgen_numbers_are_short() {
    assert_eq!(n("12.50"), "12.5");
    assert_eq!(n("12.00"), "12");
    assert_eq!(n("100.00"), "100");
    assert_eq!(n("0.00"), "0");
    assert_eq!(n("-0.00"), "0");
    assert_eq!(n("0.05"), "0.05");
    assert_eq!(decimal(0), "0");
    assert_eq!(decimal(400), "400");
    assert_eq!(decimal(u32::MAX), "4294967295");
}

#[test]
fn chartgen_elements() {
    let mut s = Svg::new("820.00", "100.50");
    s.rect("1.00", "2.00", "3.00", "4.00", "#111", "1.50", false);
    s.rect("1.00", "2.00", "0.00", "4.00", "#111", "0.00", true);
    s.line("0.00", "1.00", "2.00", "3.00", "#222", "1.00");
    let one = vec![("1.00".to_string(), "2.00".to_string())];
    s.path(&one, "#333", "2.00");
    let two = vec![
        ("1.00".to_string(), "2.00".to_string()),
        ("3.50".to_string(), "4.00".to_string()),
    ];
    s.path(&two, "#333", "2.00");
    s.marker("1.00", "2.00", "4.00", "#444", "#555");
    s.text("5.00", "6.00", "a<b", "#666", "11.00", Anchor::Middle, 400);
    let doc = s.finish("T&T", "D");
    let body = concat_all(&[
        "<rect x=\"1\" y=\"2\" width=\"3\" height=\"4\" rx=\"1.5\" fill=\"#111\"/>",
        "<line x1=\"0\" y1=\"1\" x2=\"2\" y2=\"3\" stroke=\"#222\" stroke-width=\"1\"/>",
        "<path d=\"M1 2 L3.5 4\" fill=\"none\" stroke=\"#333\" stroke-width=\"2\" \
         stroke-linejoin=\"round\" stroke-linecap=\"round\"/>",
        "<circle cx=\"1\" cy=\"2\" r=\"4\" fill=\"#444\" stroke=\"#555\" stroke-width=\"2\"/>",
        "<text x=\"5\" y=\"6\" fill=\"#666\" font-size=\"11\" font-weight=\"400\" \
         font-style=\"normal\" text-anchor=\"middle\">a&lt;b</text>",
    ]);
    let expected = concat_all(&[
        "<svg xmlns=\"http://www.w3.org/2000/svg\" width=\"820\" height=\"100.5\" \
         viewBox=\"0 0 820 100.5\" role=\"img\" aria-labelledby=\"t d\">\n",
        "<title id=\"t\">T&amp;T</title><desc id=\"d\">D</desc>\n",
        "<style>text{font-family:'Berkeley Mono', ui-monospace, 'SF Mono', Menlo, monospace;\
         font-feature-settings:'liga' 1,'calt' 1;font-style:normal;dominant-baseline:auto}\
         </style>\n",
        "<rect width=\"820\" height=\"100.5\" fill=\"#101010\"/>\n",
        &body,
        "\n</svg>\n",
    ]);
    assert_eq!(doc, expected);
    assert_eq!(Anchor::Start.as_str(), "start");
    assert_eq!(Anchor::End.as_str(), "end");
}

fn concat_all(parts: &[&str]) -> String {
    parts.concat()
}

fn frame() -> Frame {
    Frame {
        w: "820.00".to_string(),
        h: "174.00".to_string(),
        left: "96.00".to_string(),
        right: "764.00".to_string(),
        top: "60.00".to_string(),
        bottom: "144.00".to_string(),
        label_end: "82.00".to_string(),
        caption_x: "430.00".to_string(),
        caption_y: "172.00".to_string(),
    }
}

fn bar(label: &str, hero: bool) -> BarMark {
    BarMark {
        label: label.to_string(),
        value: "1.50".to_string(),
        hero,
        top: "68.00".to_string(),
        bottom: "94.00".to_string(),
        base: "85.00".to_string(),
        width: "200.00".to_string(),
        height: "26.00".to_string(),
        radius: "3.00".to_string(),
        degenerate: false,
        value_at: "306.00".to_string(),
    }
}

#[test]
fn chartgen_bar_chart() {
    let ticks = vec![Tick {
        at: "96.00".to_string(),
        label_at: "160.00".to_string(),
        label: "0.00".to_string(),
    }];
    let bars = vec![bar("hero", true), bar("other", false)];
    let doc = bars_chart("T", "S", "ops", &frame(), &ticks, &bars, Better::Higher);
    assert!(doc.contains(">S \u{b7} higher is better</text>"));
    let lower = bars_chart("T", "", "ns", &frame(), &ticks, &bars, Better::Lower);
    assert!(lower.contains(">lower is better</text>"));
    let hero = "<text x=\"82\" y=\"85\" fill=\"#f2f4f8\" font-size=\"11\" font-weight=\"400\" \
         font-style=\"normal\" text-anchor=\"end\">hero</text>\
         <rect x=\"96\" y=\"68\" width=\"200\" height=\"26\" rx=\"3\" fill=\"#1fae61\"/>\
         <text x=\"306\" y=\"85\" fill=\"#f2f4f8\" font-size=\"11\" font-weight=\"400\" \
         font-style=\"normal\" text-anchor=\"start\">1.50</text>";
    assert!(doc.contains(hero));
    let other = "<rect x=\"96\" y=\"68\" width=\"200\" height=\"26\" rx=\"3\" fill=\"#3a3a3a\"/>\
         <line x1=\"96\" y1=\"68\" x2=\"96\" y2=\"94\" stroke=\"#4a4a4a\" stroke-width=\"1\"/>";
    assert!(doc.contains(other));
    let axis = "<line x1=\"96\" y1=\"60\" x2=\"96\" y2=\"144\" stroke=\"#3a3a3a\" \
         stroke-width=\"1\"/>\n</svg>\n";
    assert!(doc.ends_with(axis));
}

fn curve(name: &str, points: &[(&str, &str)]) -> Curve {
    Curve {
        points: points
            .iter()
            .map(|(x, y)| (x.to_string(), y.to_string()))
            .collect(),
        name: name.to_string(),
        key_x: "28.00".to_string(),
        key_y: "60.00".to_string(),
        name_x: "40.00".to_string(),
        name_y: "64.00".to_string(),
    }
}

#[test]
fn chartgen_percentile_chart() {
    let level = vec![Tick {
        at: "330.00".to_string(),
        label_at: "334.00".to_string(),
        label: "10 ns".to_string(),
    }];
    let curves = vec![
        curve("one", &[("100.00", "200.00"), ("110.00", "190.00")]),
        curve("two", &[]),
    ];
    let labels = vec![CurveLabel {
        x: "122.00".to_string(),
        y: "194.00".to_string(),
        name: "one".to_string(),
        curve: 0,
    }];
    let docs = latency_percentiles("T", "S", &frame(), &level, &Vec::new(), &curves, &labels);
    assert_eq!(docs.len(), 1);
    let doc = &docs[0];
    assert!(doc.contains("<path d=\"M100 200 L110 190\" fill=\"none\" stroke=\"#1fae61\""));
    // Two points and two keys.
    assert_eq!(doc.matches("<circle").count(), 4);
    let legend = "<text x=\"40\" y=\"64\" fill=\"#b6b8bb\" font-size=\"10\" font-weight=\"400\" \
         font-style=\"normal\" text-anchor=\"start\">two</text>";
    assert!(doc.contains(legend));
    let beside = "<text x=\"122\" y=\"194\" fill=\"#1fae61\" font-size=\"11\" \
         font-weight=\"400\" font-style=\"normal\" text-anchor=\"start\">one</text>";
    assert!(doc.contains(beside));
    assert!(doc.contains("percentile (log scale \u{2014} the tail gets the room)"));
    assert!(doc.ends_with(
        "<line x1=\"96\" y1=\"144\" x2=\"764\" y2=\"144\" stroke=\"#3a3a3a\" \
         stroke-width=\"1\"/>\n</svg>\n"
    ));
}

#[test]
fn chartgen_colours_of_series_differ() {
    let colours: Vec<&str> = (0..theme::SERIES_COUNT).map(theme::series_colour).collect();
    assert_eq!(
        colours,
        vec![theme::HERO, "#e8630f", "#4589ff", "#d02670", "#a56eff"]
    );
    assert_eq!(theme::bar_colours(false), (theme::NEUTRAL, theme::MUTED));
}

#[test]
fn chartgen_a_sixth_series_gets_a_chart_of_its_own() {
    let names = ["a", "b", "c", "d", "e", "f"];
    let curves: Vec<Curve> = names
        .iter()
        .map(|name| curve(name, &[("100.00", "200.00")]))
        .collect();
    let labels: Vec<CurveLabel> = names
        .iter()
        .enumerate()
        .map(|(i, name)| CurveLabel {
            x: "122.00".to_string(),
            y: "194.00".to_string(),
            name: name.to_string(),
            curve: i,
        })
        .collect();
    let none = Vec::new();
    let docs = latency_percentiles("T", "S", &frame(), &none, &none, &curves, &labels);
    assert_eq!(docs.len(), 2);
    // A legend and a name beside the curve, for each curve in one chart only.
    for (i, name) in names.iter().enumerate() {
        let text = format!(">{name}</text>");
        assert_eq!(docs[0].matches(&text).count(), if i < 5 { 2 } else { 0 });
        assert_eq!(docs[1].matches(&text).count(), if i < 5 { 0 } else { 2 });
    }
    assert_eq!(docs[0].matches("<circle").count(), 10);
    assert_eq!(docs[1].matches("<circle").count(), 2);
    // It starts with the first colour.
    assert!(docs[1].contains("fill=\"#1fae61\""));
    assert!(!docs[1].contains("#e8630f"));
}

#[test]
fn chartgen_facets_take_the_series_in_turn() {
    assert_eq!(facets(0), vec![(0, 0)]);
    assert_eq!(facets(1), vec![(0, 1)]);
    assert_eq!(facets(5), vec![(0, 5)]);
    assert_eq!(facets(6), vec![(0, 5), (5, 6)]);
    assert_eq!(facets(10), vec![(0, 5), (5, 10)]);
    assert_eq!(facets(12), vec![(0, 5), (5, 10), (10, 12)]);
}

#[test]
fn chartgen_subtitle_states_the_direction() {
    let said = "uncontended \u{b7} higher is better";
    assert_eq!(state_direction(said, Better::Higher), said);
    assert_eq!(
        state_direction("uncontended", Better::Higher),
        "uncontended \u{b7} higher is better"
    );
    assert_eq!(
        state_direction("p99", Better::Lower),
        "p99 \u{b7} lower is better"
    );
    assert_eq!(state_direction("", Better::Lower), "lower is better");
    assert_eq!(
        state_direction("higher is better", Better::Lower),
        "higher is better \u{b7} lower is better"
    );
}

#[test]
fn chartgen_items_are_arranged_best_first() {
    let values = [2.0f64, 9.5, -1.0, 2.0];
    let keys: Vec<u64> = values.iter().map(|v| v.to_bits()).collect();
    let items = vec!["a", "b", "c", "d"];
    assert_eq!(
        arranged(items.clone(), &keys, Better::Higher),
        vec!["b", "a", "d", "c"]
    );
    assert_eq!(
        arranged(items, &keys, Better::Lower),
        vec!["c", "a", "d", "b"]
    );
    assert!(arranged(Vec::<String>::new(), &Vec::new(), Better::Lower).is_empty());
}

#[test]
fn chartgen_widest_counts_characters() {
    assert_eq!(widest(&texts(&["ab", "\u{b5}\u{b5}\u{b5}", ""])), 3);
    assert_eq!(widest(&Vec::new()), 0);
}

#[test]
fn chartgen_text_agrees_with_the_standard_library() {
    let samples = ["", "a", " a b ", "\u{3000}x\u{85}", "TrUe", "\u{e4}", "a\nb\n", "z"];
    for a in samples {
        assert_eq!(text::trim(a), a.trim());
        assert_eq!(text::split(a, '\n'), a.split('\n').collect::<Vec<&str>>());
        assert_eq!(
            text::find(a, 'b'),
            a.chars().position(|c| c == 'b').unwrap_or(a.chars().count())
        );
        for b in samples {
            assert_eq!(text::same(a, b), a == b);
            assert_eq!(text::precedes(a, b), a < b);
            assert_eq!(text::eq_ignore_ascii_case(a, b), a.eq_ignore_ascii_case(b));
            assert_eq!(text::starts_with(a, b), a.starts_with(b));
            assert_eq!(text::ends_with(a, b), a.ends_with(b));
            assert_eq!(text::contains(a, b), a.contains(b));
        }
    }
    for n in 0..0x11_0000u32 {
        if let Some(c) = char::from_u32(n) {
            assert_eq!(text::is_white(c), c.is_whitespace());
        }
    }
}

#[test]
fn chartgen_sorted_map() {
    let mut m: SortedMap<u8> = SortedMap::new();
    let i = m.entry("b", 1);
    *m.value_mut(i) += 10;
    m.set("a", 2);
    m.set("b", 3);
    assert_eq!(m.entry("a", 9), 0);
    assert_eq!(m.len(), 2);
    assert_eq!((m.key(0), *m.value(0)), ("a", 2));
    assert_eq!((m.key(1), *m.value(1)), ("b", 3));
    assert_eq!(m.get("c"), None);
}
