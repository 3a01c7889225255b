use vstd::prelude::*;

use crate::chartgen::text;
use crate::chartgen::theme;

verus! {

/// What stands for the character `c` in text.
pub open spec fn escaped_char(c: char) -> Seq<char> {
    if c == '&' {
        "&amp;"@
    } else if c == '<' {
        "&lt;"@
    } else if c == '>' {
        "&gt;"@
    } else if c == '"' {
        "&quot;"@
    } else if c == '\'' {
        "&apos;"@
    } else {
        seq![c]
    }
}

/// What stands for `s` in text.
pub open spec fn escaped(s: Seq<char>) -> Seq<char>
    decreases s.len(),
{
    if s.len() == 0 {
        Seq::empty()
    } else {
        escaped(s.drop_last()) + escaped_char(s.last())
    }
}

/// Text that has been escaped holds no character that would end it or open a
/// tag.
pub proof fn law_escaped_text_holds_no_markup(s: Seq<char>)
    ensures
        forall|i: int|
            0 <= i < escaped(s).len() ==> {
                let c = #[trigger] escaped(s)[i];
                c != '<' && c != '>' && c != '"' && c != '\''
            },
    decreases s.len(),
{
    reveal_strlit("&amp;");
    reveal_strlit("&lt;");
    reveal_strlit("&gt;");
    reveal_strlit("&quot;");
    reveal_strlit("&apos;");
    if s.len() > 0 {
        law_escaped_text_holds_no_markup(s.drop_last());
        let head = escaped(s.drop_last());
        let tail = escaped_char(s.last());
        assert forall|i: int| 0 <= i < escaped(s).len() implies {
            let c = #[trigger] escaped(s)[i];
            c != '<' && c != '>' && c != '"' && c != '\''
        } by {
            if i < head.len() {
                assert(escaped(s)[i] == head[i]);
            } else {
                assert(escaped(s)[i] == tail[i - head.len()]);
            }
        }
    }
}

/// Text is escaped character by character: each of the five that have a meaning in XML
/// by its name, and every other by itself.
pub proof fn law_each_character_is_escaped_by_itself(a: Seq<char>, b: Seq<char>, c: char)
    ensures
        escaped(a + b) == escaped(a) + escaped(b),
        escaped(Seq::empty()) == Seq::<char>::empty(),
        c != '&' && c != '<' && c != '>' && c != '"' && c != '\'' ==> escaped(seq![c]) == seq![c],
        escaped(seq!['&']) == "&amp;"@,
        escaped(seq!['<']) == "&lt;"@,
        escaped(seq!['>']) == "&gt;"@,
        escaped(seq!['"']) == "&quot;"@,
        escaped(seq!['\'']) == "&apos;"@,
    decreases b.len(),
{
    lemma_escaped_one(c);
    lemma_escaped_one('&');
    lemma_escaped_one('<');
    lemma_escaped_one('>');
    lemma_escaped_one('"');
    lemma_escaped_one('\'');
    if b.len() == 0 {
        assert(a + b =~= a);
        assert(escaped(a) + escaped(b) =~= escaped(a));
    } else {
        law_each_character_is_escaped_by_itself(a, b.drop_last(), c);
        assert((a + b).drop_last() =~= a + b.drop_last());
        assert(escaped(a + b) =~= escaped(a) + escaped(b));
    }
}

proof fn lemma_escaped_one(c: char)
    ensures
        escaped(seq![c]) == escaped_char(c),
{
    let one = seq![c];
    assert(one.drop_last() =~= Seq::<char>::empty());
    assert(escaped(one.drop_last()) =~= Seq::<char>::empty());
    assert(one.last() == c);
    assert(escaped(one) =~= escaped_char(c));
}

/// Escapes the five characters that have a meaning in XML.
pub fn esc(s: &str) -> (r: String)
    ensures
        r@ == escaped(s@),
{
    let len: usize = s.unicode_len();
    let mut r = String::new();
    let mut i: usize = 0;
    assert(r@ =~= escaped(s@.take(0)));
    while i < len
        invariant
            i <= len,
            len == s@.len(),
            r@ == escaped(s@.take(i as int)),
        decreases len - i,
    {
        assert(s@.take(i + 1).drop_last() =~= s@.take(i as int));
        let c: char = s.get_char(i);
        if c == '&' {
            r.append("&amp;");
        } else if c == '<' {
            r.append("&lt;");
        } else if c == '>' {
            r.append("&gt;");
        } else if c == '"' {
            r.append("&quot;");
        } else if c == '\'' {
            r.append("&apos;");
        } else {
            let one = s.substring_char(i, i + 1);
            assert(one@ =~= seq![c]);
            r.append(one);
        }
        i = i + 1;
    }
    assert(s@.take(len as int) =~= s@);
    r
}

/// `s` without the characters `c` that it ends with.
pub open spec fn stripped(s: Seq<char>, c: char) -> Seq<char>
    decreases s.len(),
{
    if s.len() > 0 && s.last() == c {
        stripped(s.drop_last(), c)
    } else {
        s
    }
}

/// The short form of a number written with decimals: without zeros at the end,
/// and without the point if nothing follows it. Minus zero is zero.
pub open spec fn short(s: Seq<char>) -> Seq<char> {
    let t = stripped(stripped(s, '0'), '.');
    if t.len() == 0 || t == "-0"@ {
        "0"@
    } else {
        t
    }
}

/// Stripping takes the character from the end, as often as it stands there, and nothing
/// else.
pub proof fn law_stripping_takes_one_character_only(s: Seq<char>, c: char)
    ensures
        stripped(s, c).len() <= s.len(),
        stripped(s, c) == s.take(stripped(s, c).len() as int),
        forall|k: int| stripped(s, c).len() <= k < s.len() ==> #[trigger] s[k] == c,
        stripped(s, c).len() > 0 ==> stripped(s, c).last() != c,
    decreases s.len(),
{
    if s.len() > 0 && s.last() == c {
        let init = s.drop_last();
        law_stripping_takes_one_character_only(init, c);
        assert(init.take(stripped(init, c).len() as int) =~= s.take(
            stripped(init, c).len() as int,
        ));
        assert forall|k: int| stripped(s, c).len() <= k < s.len() implies #[trigger] s[k] == c by {
            if k < init.len() {
                assert(init[k] == s[k]);
            }
        }
    } else {
        assert(s.take(s.len() as int) =~= s);
    }
}

/// The short form of a number is what it is written with, up to zeros at its end and the
/// point before them. A number that is nothing else is zero, and so is minus zero.
pub proof fn law_the_short_form_is_the_same_number(s: Seq<char>)
    ensures
        ({
            let bare = stripped(stripped(s, '0'), '.');
            &&& bare == s.take(bare.len() as int)
            &&& forall|k: int| bare.len() <= k < s.len() ==> #[trigger] s[k] == '0' || s[k] == '.'
            &&& bare.len() == 0 || bare == "-0"@ ==> short(s) == "0"@
            &&& bare.len() > 0 && bare != "-0"@ ==> short(s) == bare
            &&& bare.len() > 0 ==> bare.last() != '.'
        }),
{
    let once = stripped(s, '0');
    law_stripping_takes_one_character_only(s, '0');
    law_stripping_takes_one_character_only(once, '.');
    let bare = stripped(once, '.');
    assert(bare =~= s.take(bare.len() as int));
    assert forall|k: int| bare.len() <= k < s.len() implies #[trigger] s[k] == '0' || s[k] == '.' by {
        if k < once.len() {
            assert(once[k] == s[k]);
        }
    }
}

fn strip<'a>(s: &'a str, c: char) -> (r: &'a str)
    ensures
        r@ == stripped(s@, c),
{
    let mut to: usize = s.unicode_len();
    assert(s@.take(to as int) =~= s@);
    while to > 0 && s.get_char(to - 1) == c
        invariant
            to <= s@.len(),
            stripped(s@.take(to as int), c) == stripped(s@, c),
        decreases to,
    {
        assert(s@.take(to as int).drop_last() =~= s@.take(to - 1));
        to = to - 1;
    }
    let r = s.substring_char(0, to);
    assert(r@ =~= s@.take(to as int));
    r
}

/// The short form of a number written with decimals.
pub fn n(s: &str) -> (r: String)
    ensures
        r@ == short(s@),
{
    let t = strip(strip(s, '0'), '.');
    if t.unicode_len() == 0 || crate::chartgen::text::same(t, "-0") {
        "0".to_owned()
    } else {
        t.to_owned()
    }
}

/// The digits of `n`.
pub open spec fn digits(n: nat) -> Seq<char>
    decreases n,
{
    if n < 10 {
        seq![digit(n)]
    } else {
        digits(n / 10).push(digit(n % 10))
    }
}

/// The digit for a number below ten.
pub open spec fn digit(n: nat) -> char {
    if n == 0 {
        '0'
    } else if n == 1 {
        '1'
    } else if n == 2 {
        '2'
    } else if n == 3 {
        '3'
    } else if n == 4 {
        '4'
    } else if n == 5 {
        '5'
    } else if n == 6 {
        '6'
    } else if n == 7 {
        '7'
    } else if n == 8 {
        '8'
    } else {
        '9'
    }
}

/// Numbers are written in decimal, the last digit last and without zeros in front.
pub proof fn law_numbers_are_decimal(tens: nat, ones: nat)
    requires
        ones < 10,
    ensures
        digits(ones) == seq![digit(ones)],
        digit(ones) as int == '0' as int + ones,
        tens > 0 ==> digits(10 * tens + ones) == digits(tens).push(digit(ones)),
{
    assert((10 * tens + ones) / 10 == tens && (10 * tens + ones) % 10 == ones);
}

fn digit_text(n: u32) -> (r: &'static str)
    requires
        n < 10,
    ensures
        r@ == seq![digit(n as nat)],
{
    proof {
        reveal_strlit("0123456789");
    }
    let all = "0123456789";
    let i: usize = n as usize;
    let r = all.substring_char(i, i + 1);
    assert(r@ =~= seq![digit(n as nat)]);
    r
}

/// `n` in digits.
pub fn decimal(n: u32) -> (r: String)
    ensures
        r@ == digits(n as nat),
    decreases n,
{
    if n < 10 {
        digit_text(n).to_owned()
    } else {
        let mut r = decimal(n / 10);
        r.append(digit_text(n % 10));
        r
    }
}

/// Which point of a text its position names.
#[derive(Clone, Copy, PartialEq, Eq, Structural)]
pub enum Anchor {
    Start,
    Middle,
    End,
}

impl Anchor {
    pub open spec fn text(self) -> Seq<char> {
        match self {
            Anchor::Start => "start"@,
            Anchor::Middle => "middle"@,
            Anchor::End => "end"@,
        }
    }

    pub fn as_str(self) -> (r: &'static str)
        ensures
            r@ == self.text(),
    {
        match self {
            Anchor::Start => "start",
            Anchor::Middle => "middle",
            Anchor::End => "end",
        }
    }
}

/// A drawing. Coordinates and sizes are handed in as numbers written with two
/// decimals, and are written in their short form.
pub struct Svg {
    body: String,
    w: String,
    h: String,
}

/// A rectangle.
pub open spec fn rect_text(
    x: Seq<char>,
    y: Seq<char>,
    w: Seq<char>,
    h: Seq<char>,
    fill: Seq<char>,
    rx: Seq<char>,
) -> Seq<char> {
    "<rect x=\""@ + short(x) + "\" y=\""@ + short(y) + "\" width=\""@ + short(w) + "\" height=\""@
        + short(h) + "\" rx=\""@ + short(rx) + "\" fill=\""@ + fill + "\"/>"@
}

/// A line.
pub open spec fn line_text(
    x1: Seq<char>,
    y1: Seq<char>,
    x2: Seq<char>,
    y2: Seq<char>,
    stroke: Seq<char>,
    w: Seq<char>,
) -> Seq<char> {
    "<line x1=\""@ + short(x1) + "\" y1=\""@ + short(y1) + "\" x2=\""@ + short(x2) + "\" y2=\""@
        + short(y2) + "\" stroke=\""@ + stroke + "\" stroke-width=\""@ + short(w) + "\"/>"@
}

/// The first `k` of the points `pts`, as the moves of a pen: to the first, and
/// along a line to each of the others.
pub open spec fn path_data(pts: Seq<(Seq<char>, Seq<char>)>, k: int) -> Seq<char>
    decreases k,
{
    if k <= 0 {
        Seq::empty()
    } else if k == 1 {
        "M"@ + short(pts[0].0) + " "@ + short(pts[0].1)
    } else {
        path_data(pts, k - 1) + " L"@ + short(pts[k - 1].0) + " "@ + short(pts[k - 1].1)
    }
}

/// A line through the points `pts`.
pub open spec fn path_text(
    pts: Seq<(Seq<char>, Seq<char>)>,
    stroke: Seq<char>,
    w: Seq<char>,
) -> Seq<char> {
    "<path d=\""@ + path_data(pts, pts.len() as int) + "\" fill=\"none\" stroke=\""@ + stroke
        + "\" stroke-width=\""@ + short(w)
        + "\" stroke-linejoin=\"round\" stroke-linecap=\"round\"/>"@
}

/// A dot with a ring.
pub open spec fn marker_text(
    x: Seq<char>,
    y: Seq<char>,
    r: Seq<char>,
    fill: Seq<char>,
    ring: Seq<char>,
) -> Seq<char> {
    "<circle cx=\""@ + short(x) + "\" cy=\""@ + short(y) + "\" r=\""@ + short(r) + "\" fill=\""@
        + fill + "\" stroke=\""@ + ring + "\" stroke-width=\"2\"/>"@
}

/// A piece of text.
pub open spec fn text_text(
    x: Seq<char>,
    y: Seq<char>,
    s: Seq<char>,
    fill: Seq<char>,
    size: Seq<char>,
    anchor: Anchor,
    weight: u32,
) -> Seq<char> {
    "<text x=\""@ + short(x) + "\" y=\""@ + short(y) + "\" fill=\""@ + fill + "\" font-size=\""@
        + short(size) + "\" font-weight=\""@ + digits(weight as nat)
        + "\" font-style=\"normal\" text-anchor=\""@ + anchor.text() + "\">"@ + escaped(s)
        + "</text>"@
}

/// The whole drawing.
pub open spec fn document_text(
    w: Seq<char>,
    h: Seq<char>,
    title: Seq<char>,
    desc: Seq<char>,
    body: Seq<char>,
) -> Seq<char> {
    "<svg xmlns=\"http://www.w3.org/2000/svg\" width=\""@ + short(w) + "\" height=\""@ + short(h)
        + "\" viewBox=\"0 0 "@ + short(w) + " "@ + short(h)
        + "\" role=\"img\" aria-labelledby=\"t d\">\n<title id=\"t\">"@ + escaped(title)
        + "</title><desc id=\"d\">"@ + escaped(desc) + "</desc>\n<style>text{font-family:"@
        + theme::FONT@ + ";"@ + theme::FONT_FEATURES@
        + ";font-style:normal;dominant-baseline:auto}</style>\n<rect width=\""@ + short(w)
        + "\" height=\""@ + short(h) + "\" fill=\""@ + theme::BG@ + "\"/>\n"@ + body
        + "\n</svg>\n"@
}

/// A line goes to each of its points in turn, from the first on.
pub proof fn law_a_line_goes_to_each_point_in_turn(pts: Seq<(Seq<char>, Seq<char>)>, k: int)
    requires
        0 <= k,
    ensures
        path_data(pts, 0) == Seq::<char>::empty(),
        path_data(pts, 1) == "M"@ + short(pts[0].0) + " "@ + short(pts[0].1),
        k >= 1 ==> path_data(pts, k + 1) == path_data(pts, k) + (" L"@ + short(pts[k].0) + " "@
            + short(pts[k].1)),
{
    if k >= 1 {
        assert(path_data(pts, k + 1) =~= path_data(pts, k) + (" L"@ + short(pts[k].0) + " "@ + short(
            pts[k].1,
        )));
    }
}

/// An element shows what it is given: a text its characters, in the colour and at the
/// place that were asked for.
pub proof fn law_a_text_shows_what_it_is_given(
    x: Seq<char>,
    y: Seq<char>,
    s: Seq<char>,
    fill: Seq<char>,
    size: Seq<char>,
    anchor: Anchor,
    weight: u32,
)
    ensures
        ({
            let shown = text_text(x, y, s, fill, size, anchor, weight);
            &&& text::occurs(shown, escaped(s))
            &&& text::occurs(shown, "<text x=\""@ + short(x) + "\" y=\""@ + short(y)
                + "\" fill=\""@ + fill)
            &&& text::occurs(shown, digits(weight as nat))
            &&& text::occurs(shown, anchor.text())
            &&& text::occurs(shown, short(size))
        }),
{
    let head = "<text x=\""@ + short(x) + "\" y=\""@ + short(y) + "\" fill=\""@ + fill;
    let a = head + "\" font-size=\""@;
    let b = a + short(size) + "\" font-weight=\""@;
    let c = b + digits(weight as nat) + "\" font-style=\"normal\" text-anchor=\""@;
    let d = c + anchor.text() + "\">"@;
    let e = d + escaped(s) + "</text>"@;
    let shown = text_text(x, y, s, fill, size, anchor, weight);
    assert(shown =~= e);
    text::lemma_occurs_between(d, escaped(s), "</text>"@);
    let tail_d = escaped(s) + "</text>"@;
    assert(e =~= c + anchor.text() + ("\">"@ + tail_d));
    text::lemma_occurs_between(c, anchor.text(), "\">"@ + tail_d);
    let tail_c = anchor.text() + "\">"@ + tail_d;
    let mid_c = "\" font-style=\"normal\" text-anchor=\""@;
    assert(e =~= b + digits(weight as nat) + (mid_c + tail_c));
    text::lemma_occurs_between(b, digits(weight as nat), mid_c + tail_c);
    let tail_b = digits(weight as nat) + mid_c + tail_c;
    let mid_b = "\" font-weight=\""@;
    assert(e =~= a + short(size) + (mid_b + tail_b));
    text::lemma_occurs_between(a, short(size), mid_b + tail_b);
    let rest = "\" font-size=\""@ + short(size) + mid_b + tail_b;
    assert(e =~= Seq::<char>::empty() + head + rest);
    text::lemma_occurs_between(Seq::empty(), head, rest);
}

/// The whole drawing shows its title, its description and all that has been drawn.
pub proof fn law_a_drawing_shows_all_of_it(
    w: Seq<char>,
    h: Seq<char>,
    title: Seq<char>,
    desc: Seq<char>,
    body: Seq<char>,
)
    ensures
        text::occurs(document_text(w, h, title, desc, body), body),
        text::occurs(document_text(w, h, title, desc, body), escaped(title)),
        text::occurs(document_text(w, h, title, desc, body), escaped(desc)),
{
    let whole = document_text(w, h, title, desc, body);
    let a = "<svg xmlns=\"http://www.w3.org/2000/svg\" width=\""@ + short(w) + "\" height=\""@
        + short(h) + "\" viewBox=\"0 0 "@ + short(w) + " "@ + short(h)
        + "\" role=\"img\" aria-labelledby=\"t d\">\n<title id=\"t\">"@;
    let b = a + escaped(title) + "</title><desc id=\"d\">"@;
    let style = "</desc>\n<style>text{font-family:"@ + theme::FONT@ + ";"@ + theme::FONT_FEATURES@
        + ";font-style:normal;dominant-baseline:auto}</style>\n<rect width=\""@ + short(w)
        + "\" height=\""@ + short(h) + "\" fill=\""@ + theme::BG@ + "\"/>\n"@;
    let c = b + escaped(desc) + style;
    assert(whole =~= c + body + "\n</svg>\n"@);
    text::lemma_occurs_between(c, body, "\n</svg>\n"@);
    let tail = style + body + "\n</svg>\n"@;
    assert(whole =~= b + escaped(desc) + tail);
    text::lemma_occurs_between(b, escaped(desc), tail);
    let more = "</title><desc id=\"d\">"@ + escaped(desc) + tail;
    assert(whole =~= a + escaped(title) + more);
    text::lemma_occurs_between(a, escaped(title), more);
}

impl Svg {
    /// What has been drawn.
    pub closed spec fn body(self) -> Seq<char> {
        self.body@
    }

    pub closed spec fn width(self) -> Seq<char> {
        self.w@
    }

    pub closed spec fn height(self) -> Seq<char> {
        self.h@
    }

    /// An empty drawing of the given size.
    pub fn new(w: &str, h: &str) -> (r: Self)
        ensures
            r.body() == Seq::<char>::empty(),
            r.width() == w@,
            r.height() == h@,
    {
        let body = String::new();
        assert(body@ =~= Seq::<char>::empty());
        Svg { body, w: w.to_owned(), h: h.to_owned() }
    }

    /// Draws a rectangle, unless it is degenerate.
    pub fn rect(
        &mut self,
        x: &str,
        y: &str,
        w: &str,
        h: &str,
        fill: &str,
        rx: &str,
        degenerate: bool,
    )
        ensures
            final(self).body() == if degenerate {
                old(self).body()
            } else {
                old(self).body() + rect_text(x@, y@, w@, h@, fill@, rx@)
            },
            final(self).width() == old(self).width(),
            final(self).height() == old(self).height(),
    {
        if degenerate {
            return;
        }
        let mut t = "<rect x=\"".to_owned();
        t.append(n(x).as_str());
        t.append("\" y=\"");
        t.append(n(y).as_str());
        t.append("\" width=\"");
        t.append(n(w).as_str());
        t.append("\" height=\"");
        t.append(n(h).as_str());
        t.append("\" rx=\"");
        t.append(n(rx).as_str());
        t.append("\" fill=\"");
        t.append(fill);
        t.append("\"/>");
        self.body.append(t.as_str());
    }

    /// Draws a line.
    pub fn line(&mut self, x1: &str, y1: &str, x2: &str, y2: &str, stroke: &str, w: &str)
        ensures
            final(self).body() == old(self).body() + line_text(x1@, y1@, x2@, y2@, stroke@, w@),
            final(self).width() == old(self).width(),
            final(self).height() == old(self).height(),
    {
        let mut t = "<line x1=\"".to_owned();
        t.append(n(x1).as_str());
        t.append("\" y1=\"");
        t.append(n(y1).as_str());
        t.append("\" x2=\"");
        t.append(n(x2).as_str());
        t.append("\" y2=\"");
        t.append(n(y2).as_str());
        t.append("\" stroke=\"");
        t.append(stroke);
        t.append("\" stroke-width=\"");
        t.append(n(w).as_str());
        t.append("\"/>");
        self.body.append(t.as_str());
    }

    /// Draws a line through the points `pts`, unless there are fewer than two.
    pub fn path(&mut self, pts: &Vec<(String, String)>, stroke: &str, w: &str)
        ensures
            final(self).body() == if pts@.len() < 2 {
                old(self).body()
            } else {
                old(self).body() + path_text(
                    pts@.map_values(|p: (String, String)| (p.0@, p.1@)),
                    stroke@,
                    w@,
                )
            },
            final(self).width() == old(self).width(),
            final(self).height() == old(self).height(),
    {
        if pts.len() < 2 {
            return;
        }
        let ghost points = pts@.map_values(|p: (String, String)| (p.0@, p.1@));
        let mut d = "M".to_owned();
        d.append(n(pts[0].0.as_str()).as_str());
        d.append(" ");
        d.append(n(pts[0].1.as_str()).as_str());
        let mut i: usize = 1;
        while i < pts.len()
            invariant
                1 <= i <= pts@.len(),
                points == pts@.map_values(|p: (String, String)| (p.0@, p.1@)),
                d@ == path_data(points, i as int),
            decreases pts@.len() - i,
        {
            d.append(" L");
            d.append(n(pts[i].0.as_str()).as_str());
            d.append(" ");
            d.append(n(pts[i].1.as_str()).as_str());
            i = i + 1;
        }
        let mut t = "<path d=\"".to_owned();
        t.append(d.as_str());
        t.append("\" fill=\"none\" stroke=\"");
        t.append(stroke);
        t.append("\" stroke-width=\"");
        t.append(n(w).as_str());
        t.append("\" stroke-linejoin=\"round\" stroke-linecap=\"round\"/>");
        self.body.append(t.as_str());
    }

    /// Draws a dot with a ring.
    pub fn marker(&mut self, x: &str, y: &str, r: &str, fill: &str, ring: &str)
        ensures
            final(self).body() == old(self).body() + marker_text(x@, y@, r@, fill@, ring@),
            final(self).width() == old(self).width(),
            final(self).height() == old(self).height(),
    {
        let mut t = "<circle cx=\"".to_owned();
        t.append(n(x).as_str());
        t.append("\" cy=\"");
        t.append(n(y).as_str());
        t.append("\" r=\"");
        t.append(n(r).as_str());
        t.append("\" fill=\"");
        t.append(fill);
        t.append("\" stroke=\"");
        t.append(ring);
        t.append("\" stroke-width=\"2\"/>");
        self.body.append(t.as_str());
    }

    /// Writes a piece of text.
    pub fn text(
        &mut self,
        x: &str,
        y: &str,
        s: &str,
        fill: &str,
        size: &str,
        anchor: Anchor,
        weight: u32,
    )
        ensures
            final(self).body() == old(self).body() + text_text(
                x@,
                y@,
                s@,
                fill@,
                size@,
                anchor,
                weight,
            ),
            final(self).width() == old(self).width(),
            final(self).height() == old(self).height(),
    {
        let mut t = "<text x=\"".to_owned();
        t.append(n(x).as_str());
        t.append("\" y=\"");
        t.append(n(y).as_str());
        t.append("\" fill=\"");
        t.append(fill);
        t.append("\" font-size=\"");
        t.append(n(size).as_str());
        t.append("\" font-weight=\"");
        t.append(decimal(weight).as_str());
        t.append("\" font-style=\"normal\" text-anchor=\"");
        t.append(anchor.as_str());
        t.append("\">");
        t.append(esc(s).as_str());
        t.append("</text>");
        self.body.append(t.as_str());
    }

    /// The whole drawing, with a title and a description.
    pub fn finish(self, title: &str, desc: &str) -> (r: String)
        ensures
            r@ == document_text(self.width(), self.height(), title@, desc@, self.body()),
    {
        let w = n(self.w.as_str());
        let h = n(self.h.as_str());
        let mut t = "<svg xmlns=\"http://www.w3.org/2000/svg\" width=\"".to_owned();
        t.append(w.as_str());
        t.append("\" height=\"");
        t.append(h.as_str());
        t.append("\" viewBox=\"0 0 ");
        t.append(w.as_str());
        t.append(" ");
        t.append(h.as_str());
        t.append("\" role=\"img\" aria-labelledby=\"t d\">\n<title id=\"t\">");
        t.append(esc(title).as_str());
        t.append("</title><desc id=\"d\">");
        t.append(esc(desc).as_str());
        t.append("</desc>\n<style>text{font-family:");
        t.append(theme::FONT);
        t.append(";");
        t.append(theme::FONT_FEATURES);
        t.append(";font-style:normal;dominant-baseline:auto}</style>\n<rect width=\"");
        t.append(w.as_str());
        t.append("\" height=\"");
        t.append(h.as_str());
        t.append("\" fill=\"");
        t.append(theme::BG);
        t.append("\"/>\n");
        t.append(self.body.as_str());
        t.append("\n</svg>\n");
        t
    }
}

/// What is drawn comes behind all that has been drawn, and the size of the drawing stays.
/// A rectangle without area is not drawn, and neither is a path of fewer than two points.
pub proof fn law_what_is_drawn_comes_last(
    a: &mut Svg,
    x: &str,
    y: &str,
    w: &str,
    h: &str,
    fill: &str,
    rx: &str,
    degenerate: bool,
    u: (),
    b: &mut Svg,
    pts: &Vec<(String, String)>,
    v: (),
    c: Svg,
)
    requires
        call_ensures(Svg::rect, (a, x, y, w, h, fill, rx, degenerate), u),
        call_ensures(Svg::path, (b, pts, fill, w), v),
        call_ensures(Svg::new, (w, h), c),
    ensures
        old(a).body() == final(a).body().take(old(a).body().len() as int),
        degenerate ==> final(a).body() == old(a).body(),
        !degenerate ==> final(a).body().len() > old(a).body().len(),
        final(a).width() == old(a).width() && final(a).height() == old(a).height(),
        old(b).body() == final(b).body().take(old(b).body().len() as int),
        pts@.len() < 2 ==> final(b).body() == old(b).body(),
        pts@.len() >= 2 ==> final(b).body().len() > old(b).body().len(),
        final(b).width() == old(b).width() && final(b).height() == old(b).height(),
        c.body().len() == 0 && c.width() == w@ && c.height() == h@,
{
    reveal_strlit("\"/>");
    reveal_strlit("<path d=\"");
    assert(old(a).body() =~= final(a).body().take(old(a).body().len() as int));
    assert(old(b).body() =~= final(b).body().take(old(b).body().len() as int));
}

} // verus!
