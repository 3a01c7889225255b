use vstd::prelude::*;

verus! {

/// The code points that Unicode calls white space.
pub open spec fn white(c: char) -> bool {
    let n = c as u32;
    ||| 0x9 <= n <= 0xD
    ||| n == 0x20
    ||| n == 0x85
    ||| n == 0xA0
    ||| n == 0x1680
    ||| 0x2000 <= n <= 0x200A
    ||| n == 0x2028
    ||| n == 0x2029
    ||| n == 0x202F
    ||| n == 0x205F
    ||| n == 0x3000
}

/// `s` without the white space that it begins with.
pub open spec fn trimmed_start(s: Seq<char>) -> Seq<char>
    decreases s.len(),
{
    if s.len() > 0 && white(s[0]) {
        trimmed_start(s.skip(1))
    } else {
        s
    }
}

/// `s` without the white space that it ends with.
pub open spec fn trimmed_end(s: Seq<char>) -> Seq<char>
    decreases s.len(),
{
    if s.len() > 0 && white(s.last()) {
        trimmed_end(s.drop_last())
    } else {
        s
    }
}

/// `s` without white space at either end.
pub open spec fn trimmed(s: Seq<char>) -> Seq<char> {
    trimmed_end(trimmed_start(s))
}

/// Where `c` first occurs in `s`, or the length of `s`.
pub open spec fn first_of(s: Seq<char>, c: char) -> int
    decreases s.len(),
{
    if s.len() == 0 || s[0] == c {
        0
    } else {
        1 + first_of(s.skip(1), c)
    }
}

/// The pieces of `s` between the occurrences of `c`. There is always one.
pub open spec fn pieces(s: Seq<char>, c: char) -> Seq<Seq<char>>
    decreases s.len(),
{
    let i = first_of(s, c);
    if i < 0 || i >= s.len() {
        seq![s]
    } else {
        seq![s.take(i)] + pieces(s.skip(i + 1), c)
    }
}

/// `c`, in lower case if it is an ASCII letter.
pub open spec fn lower(c: char) -> int {
    let n = c as int;
    if 0x41 <= n <= 0x5A {
        n + 0x20
    } else {
        n
    }
}

/// Whether `a` and `b` differ in the case of ASCII letters only.
pub open spec fn same_letters(a: Seq<char>, b: Seq<char>) -> bool {
    &&& a.len() == b.len()
    &&& forall|i: int| 0 <= i < a.len() ==> lower(#[trigger] a[i]) == lower(b[i])
}

/// Whether `a` comes before `b` in the order of strings: that of the first code
/// points that differ.
pub open spec fn before(a: Seq<char>, b: Seq<char>) -> bool
    decreases a.len(),
{
    if b.len() == 0 {
        false
    } else if a.len() == 0 {
        true
    } else if a[0] != b[0] {
        (a[0] as int) < (b[0] as int)
    } else {
        before(a.skip(1), b.skip(1))
    }
}

/// Trimming takes white space from both ends and nothing else: what is left is a piece
/// of the text that neither begins nor ends with white space, and all that was before
/// and behind it was white space.
pub proof fn law_trimming_takes_white_space_only(s: Seq<char>)
    ensures
        exists|i: int, j: int|
            {
                &&& 0 <= i <= j <= s.len()
                &&& trimmed(s) == #[trigger] s.subrange(i, j)
                &&& forall|k: int| 0 <= k < i ==> white(#[trigger] s[k])
                &&& forall|k: int| j <= k < s.len() ==> white(#[trigger] s[k])
            },
        trimmed(s).len() > 0 ==> !white(trimmed(s)[0]) && !white(trimmed(s).last()),
{
    let i = lemma_where_start_is(s);
    let t = s.skip(i);
    let j = lemma_where_end_is(t);
    assert(trimmed(s) == t.take(j));
    assert(t.take(j) =~= s.subrange(i, i + j));
    assert forall|k: int| i + j <= k < s.len() implies white(#[trigger] s[k]) by {
        assert(white(t[k - i]));
    }
    if trimmed(s).len() > 0 {
        assert(trimmed(s)[0] == t[0]);
    }
}

proof fn lemma_where_start_is(s: Seq<char>) -> (i: int)
    ensures
        0 <= i <= s.len(),
        trimmed_start(s) == s.skip(i),
        forall|k: int| 0 <= k < i ==> white(#[trigger] s[k]),
        i < s.len() ==> !white(s[i]),
    decreases s.len(),
{
    if s.len() > 0 && white(s[0]) {
        let i = lemma_where_start_is(s.skip(1));
        assert(s.skip(1).skip(i) =~= s.skip(i + 1));
        assert forall|k: int| 0 <= k < i + 1 implies white(#[trigger] s[k]) by {
            if k > 0 {
                assert(s.skip(1)[k - 1] == s[k]);
            }
        }
        i + 1
    } else {
        assert(s.skip(0) =~= s);
        0
    }
}

proof fn lemma_where_end_is(s: Seq<char>) -> (j: int)
    ensures
        0 <= j <= s.len(),
        trimmed_end(s) == s.take(j),
        forall|k: int| j <= k < s.len() ==> white(#[trigger] s[k]),
        j > 0 ==> !white(s[j - 1]),
    decreases s.len(),
{
    if s.len() > 0 && white(s.last()) {
        let j = lemma_where_end_is(s.drop_last());
        assert(s.drop_last().take(j) =~= s.take(j));
        assert forall|k: int| j <= k < s.len() implies white(#[trigger] s[k]) by {
            if k < s.len() - 1 {
                assert(s.drop_last()[k] == s[k]);
            }
        }
        if j > 0 {
            assert(s.drop_last()[j - 1] == s[j - 1]);
        }
        j
    } else {
        assert(s.take(s.len() as int) =~= s);
        s.len() as int
    }
}

/// The place where a character first occurs holds it, and none before does. Where it
/// does not occur at all, that is the end.
pub proof fn law_where_a_character_first_occurs(s: Seq<char>, c: char)
    ensures
        0 <= first_of(s, c) <= s.len(),
        first_of(s, c) < s.len() ==> s[first_of(s, c)] == c,
        forall|k: int| 0 <= k < first_of(s, c) ==> #[trigger] s[k] != c,
    decreases s.len(),
{
    if s.len() > 0 && s[0] != c {
        law_where_a_character_first_occurs(s.skip(1), c);
        assert forall|k: int| 0 <= k < first_of(s, c) implies #[trigger] s[k] != c by {
            if k > 0 {
                assert(s.skip(1)[k - 1] == s[k]);
            }
        }
    }
}

/// Text that does not hold the character is one piece, and the pieces of two texts
/// with the character between them are those of the first and those of the second.
pub proof fn law_pieces_lie_between_the_characters(a: Seq<char>, b: Seq<char>, c: char)
    ensures
        pieces(a + seq![c] + b, c) == pieces(a, c) + pieces(b, c),
        (forall|k: int| 0 <= k < a.len() ==> #[trigger] a[k] != c) ==> pieces(a, c) == seq![a],
        pieces(a, c).len() >= 1,
    decreases a.len(),
{
    let s = a + seq![c] + b;
    let i = first_of(a, c);
    law_where_a_character_first_occurs(a, c);
    law_where_a_character_first_occurs(s, c);
    let j = first_of(s, c);
    if i < a.len() {
        assert(s[i] == a[i]);
        assert(j == i) by {
            if j < i {
                assert(s[j] == a[j]);
            }
        }
        law_pieces_lie_between_the_characters(a.skip(i + 1), b, c);
        assert(s.take(i) =~= a.take(i));
        assert(s.skip(i + 1) =~= a.skip(i + 1) + seq![c] + b);
        assert(pieces(s, c) =~= pieces(a, c) + pieces(b, c));
    } else {
        assert(s[a.len() as int] == c);
        assert(j == a.len()) by {
            if j < a.len() {
                assert(s[j] == a[j]);
            }
        }
        assert(s.take(j) =~= a);
        assert(s.skip(j + 1) =~= b);
        assert(pieces(s, c) =~= pieces(a, c) + pieces(b, c));
    }
}

/// Letters that differ in case only are the same letter: the ASCII letters, and no
/// others.
pub proof fn law_case_of_letters(a: char, b: char)
    ensures
        same_letters(seq![a], seq![b]) <==> {
            ||| a == b
            ||| 'A' <= a <= 'Z' && b as int == a as int + 0x20
            ||| 'A' <= b <= 'Z' && a as int == b as int + 0x20
        },
{
    let x = seq![a];
    let y = seq![b];
    assert(x[0] == a && y[0] == b);
    if lower(a) == lower(b) {
        assert(same_letters(x, y));
    } else {
        assert(!(lower(x[0]) == lower(y[0])));
    }
}

/// The order of strings goes by the first characters that differ, and a string comes
/// after all that it begins with.
pub proof fn law_order_goes_by_the_first_difference(a: Seq<char>, b: Seq<char>, i: int)
    requires
        0 <= i <= a.len(),
        i < b.len(),
        a.take(i) == b.take(i),
    ensures
        i == a.len() ==> before(a, b),
        i < a.len() && (a[i] as int) < (b[i] as int) ==> before(a, b),
        i < a.len() && (a[i] as int) > (b[i] as int) ==> !before(a, b),
    decreases i,
{
    if i > 0 {
        assert(a.take(i)[0] == a[0] && b.take(i)[0] == b[0]);
        assert(before(a, b) == before(a.skip(1), b.skip(1)));
        assert(b.skip(1)[i - 1] == b[i]);
        assert(a.skip(1).take(i - 1) =~= a.take(i).skip(1));
        assert(b.skip(1).take(i - 1) =~= b.take(i).skip(1));
        law_order_goes_by_the_first_difference(a.skip(1), b.skip(1), i - 1);
    }
}

/// The order of strings is strict and total.
pub proof fn law_before_is_a_strict_total_order(a: Seq<char>, b: Seq<char>, c: Seq<char>)
    ensures
        !before(a, a),
        before(a, b) ==> !before(b, a),
        a == b || before(a, b) || before(b, a),
        before(a, b) && before(b, c) ==> before(a, c),
    decreases a.len() + b.len() + c.len(),
{
    if a.len() > 0 && b.len() > 0 && c.len() > 0 {
        law_before_is_a_strict_total_order(a.skip(1), b.skip(1), c.skip(1));
    }
    if a.len() > 0 {
        lemma_irreflexive(a);
    }
    if a.len() > 0 && b.len() > 0 {
        lemma_total(a, b);
    }
    if a.len() == 0 && b.len() == 0 {
        assert(a =~= b);
    }
}

proof fn lemma_irreflexive(a: Seq<char>)
    ensures
        !before(a, a),
    decreases a.len(),
{
    if a.len() > 0 {
        lemma_irreflexive(a.skip(1));
    }
}

proof fn lemma_total(a: Seq<char>, b: Seq<char>)
    ensures
        before(a, b) ==> !before(b, a),
        a == b || before(a, b) || before(b, a),
    decreases a.len(),
{
    if a.len() > 0 && b.len() > 0 {
        lemma_total(a.skip(1), b.skip(1));
        if a.skip(1) == b.skip(1) && a[0] == b[0] {
            assert(a =~= seq![a[0]] + a.skip(1));
            assert(b =~= seq![b[0]] + b.skip(1));
        }
    }
    if a.len() == 0 && b.len() == 0 {
        assert(a =~= b);
    }
}

/// The characters of `s`.
pub fn chars_of(s: &str) -> (r: Vec<char>)
    ensures
        r@ == s@,
{
    let mut r: Vec<char> = Vec::new();
    for c in it: s.chars()
        invariant
            r@ == it.seq().take(it.index()),
            it.seq() == s@,
    {
        assert(it.seq().take(it.index()).push(c) =~= it.seq().take(it.index() + 1));
        r.push(c);
    }
    r
}

/// Whether `c` is white space.
pub fn is_white(c: char) -> (r: bool)
    ensures
        r == white(c),
{
    let n: u32 = c as u32;
    (0x9 <= n && n <= 0xD) || n == 0x20 || n == 0x85 || n == 0xA0 || n == 0x1680 || (0x2000 <= n
        && n <= 0x200A) || n == 0x2028 || n == 0x2029 || n == 0x202F || n == 0x205F || n == 0x3000
}

proof fn lemma_trimmed_start(s: Seq<char>, k: int)
    requires
        0 <= k <= s.len(),
        forall|i: int| 0 <= i < k ==> white(#[trigger] s[i]),
        k < s.len() ==> !white(s[k]),
    ensures
        trimmed_start(s) == s.skip(k),
    decreases k,
{
    if k > 0 {
        assert(white(s[0]));
        lemma_trimmed_start(s.skip(1), k - 1);
        assert(s.skip(1).skip(k - 1) =~= s.skip(k));
    } else {
        assert(s.skip(0) =~= s);
    }
}

proof fn lemma_trimmed_end(s: Seq<char>, k: int)
    requires
        0 <= k <= s.len(),
        forall|i: int| k <= i < s.len() ==> white(#[trigger] s[i]),
        k > 0 ==> !white(s[k - 1]),
    ensures
        trimmed_end(s) == s.take(k),
    decreases s.len() - k,
{
    if k < s.len() {
        assert(white(s[s.len() - 1]));
        lemma_trimmed_end(s.drop_last(), k);
        assert(s.drop_last().take(k) =~= s.take(k));
    } else {
        assert(s.take(k) =~= s);
    }
}

/// `s` without white space at either end.
pub fn trim(s: &str) -> (r: &str)
    ensures
        r@ == trimmed(s@),
{
    let chars = chars_of(s);
    let len: usize = chars.len();
    let mut from: usize = 0;
    while from < len && is_white(chars[from])
        invariant
            from <= len,
            len == chars@.len(),
            forall|i: int| 0 <= i < from ==> white(#[trigger] chars@[i]),
        decreases len - from,
    {
        from = from + 1;
    }
    proof {
        lemma_trimmed_start(s@, from as int);
    }
    let mut to: usize = len;
    while to > from && is_white(chars[to - 1])
        invariant
            from <= to <= len,
            len == chars@.len(),
            forall|i: int| to <= i < len ==> white(#[trigger] chars@[i]),
        decreases to,
    {
        to = to - 1;
    }
    proof {
        let rest = s@.skip(from as int);
        assert forall|i: int| to - from <= i < rest.len() implies white(#[trigger] rest[i]) by {
            assert(white(chars@[i + from]));
        }
        lemma_trimmed_end(rest, to - from);
        assert(rest.take(to - from) =~= s@.subrange(from as int, to as int));
    }
    s.substring_char(from, to)
}

proof fn lemma_first_of(s: Seq<char>, c: char, k: int)
    requires
        0 <= k <= s.len(),
        forall|i: int| 0 <= i < k ==> #[trigger] s[i] != c,
        k < s.len() ==> s[k] == c,
    ensures
        first_of(s, c) == k,
    decreases k,
{
    if k > 0 {
        assert(s[0] != c);
        lemma_first_of(s.skip(1), c, k - 1);
    }
}

/// Where `c` first occurs in `s`, or the length of `s`.
pub fn find(s: &str, c: char) -> (r: usize)
    ensures
        r == first_of(s@, c),
        r <= s@.len(),
        r < s@.len() ==> s@[r as int] == c,
        forall|i: int| 0 <= i < r ==> #[trigger] s@[i] != c,
{
    let chars = chars_of(s);
    let mut i: usize = 0;
    while i < chars.len() && chars[i] != c
        invariant
            i <= chars@.len(),
            forall|k: int| 0 <= k < i ==> #[trigger] chars@[k] != c,
        decreases chars@.len() - i,
    {
        i = i + 1;
    }
    proof {
        lemma_first_of(s@, c, i as int);
    }
    i
}

/// The pieces of `s` between the occurrences of `c`.
pub fn split<'a>(s: &'a str, c: char) -> (r: Vec<&'a str>)
    ensures
        r@.map_values(|p: &'a str| p@) == pieces(s@, c),
{
    let mut r: Vec<&'a str> = Vec::new();
    let mut rest: &'a str = s;
    let ghost view = |p: &'a str| p@;
    loop
        invariant_except_break
            r@.map_values(view) + pieces(rest@, c) == pieces(s@, c),
        invariant
            view == (|p: &'a str| p@),
        ensures
            r@.map_values(view) == pieces(s@, c),
        decreases rest@.len(),
    {
        let i: usize = find(rest, c);
        let len: usize = rest.unicode_len();
        let ghost seen = r@.map_values(view);
        if i == len {
            r.push(rest);
            assert(r@.map_values(view) =~= seen + seq![rest@]);
            break;
        }
        let piece = rest.substring_char(0, i);
        r.push(piece);
        proof {
            assert(piece@ =~= rest@.take(i as int));
            assert(rest@.subrange(i + 1, len as int) =~= rest@.skip(i + 1));
            assert(r@.map_values(view) =~= seen + seq![piece@]);
            assert(seen + pieces(rest@, c) =~= (seen + seq![piece@]) + pieces(rest@.skip(i + 1), c));
        }
        rest = rest.substring_char(i + 1, len);
    }
    r
}

/// Whether `a` and `b` are the same.
pub fn same(a: &str, b: &str) -> (r: bool)
    ensures
        r == (a@ == b@),
{
    let x = chars_of(a);
    let y = chars_of(b);
    if x.len() != y.len() {
        return false;
    }
    let mut i: usize = 0;
    while i < x.len()
        invariant
            i <= x@.len(),
            x@.len() == y@.len(),
            x@ == a@,
            y@ == b@,
            forall|k: int| 0 <= k < i ==> x@[k] == y@[k],
        decreases x@.len() - i,
    {
        if x[i] != y[i] {
            assert(a@[i as int] != b@[i as int]);
            return false;
        }
        i = i + 1;
    }
    assert(a@ =~= b@);
    true
}

fn code(c: char) -> (r: u32)
    ensures
        r == c as int,
{
    c as u32
}

fn lower_code(c: char) -> (r: u32)
    ensures
        r == lower(c),
{
    let n: u32 = c as u32;
    if 0x41 <= n && n <= 0x5A {
        n + 0x20
    } else {
        n
    }
}

/// Whether `a` and `b` differ in the case of ASCII letters only.
pub fn eq_ignore_ascii_case(a: &str, b: &str) -> (r: bool)
    ensures
        r == same_letters(a@, b@),
{
    let x = chars_of(a);
    let y = chars_of(b);
    if x.len() != y.len() {
        return false;
    }
    let mut i: usize = 0;
    while i < x.len()
        invariant
            i <= x@.len(),
            x@.len() == y@.len(),
            x@ == a@,
            y@ == b@,
            forall|k: int| 0 <= k < i ==> lower(#[trigger] x@[k]) == lower(y@[k]),
        decreases x@.len() - i,
    {
        if lower_code(x[i]) != lower_code(y[i]) {
            assert(lower(a@[i as int]) != lower(b@[i as int]));
            return false;
        }
        i = i + 1;
    }
    true
}

/// Whether `s` begins with `prefix`.
pub fn starts_with(s: &str, prefix: &str) -> (r: bool)
    ensures
        r == (prefix@.len() <= s@.len() && s@.take(prefix@.len() as int) == prefix@),
{
    let n: usize = prefix.unicode_len();
    if s.unicode_len() < n {
        return false;
    }
    let head = s.substring_char(0, n);
    assert(head@ =~= s@.take(n as int));
    same(head, prefix)
}

/// Whether `s` ends with `suffix`.
pub fn ends_with(s: &str, suffix: &str) -> (r: bool)
    ensures
        r == (suffix@.len() <= s@.len() && s@.skip(s@.len() - suffix@.len()) == suffix@),
{
    let n: usize = suffix.unicode_len();
    let len: usize = s.unicode_len();
    if len < n {
        return false;
    }
    let tail = s.substring_char(len - n, len);
    assert(tail@ =~= s@.skip(len - n));
    same(tail, suffix)
}

/// Whether `part` stands in `s` from place `i` on.
pub open spec fn stands_at(s: Seq<char>, part: Seq<char>, i: int) -> bool {
    0 <= i && i + part.len() <= s.len() && s.subrange(i, i + part.len()) == part
}

/// Whether `part` stands anywhere in `s`.
pub open spec fn occurs(s: Seq<char>, part: Seq<char>) -> bool {
    exists|i: int| stands_at(s, part, i)
}

/// What stands in the middle of a text stands in it.
pub proof fn lemma_occurs_between(before: Seq<char>, part: Seq<char>, after: Seq<char>)
    ensures
        occurs(before + part + after, part),
        occurs(before + part, part),
        occurs(part + after, part),
{
    let n = before.len() as int;
    let s = before + part + after;
    assert(s.subrange(n, n + part.len()) =~= part);
    assert(stands_at(s, part, n));
    let t = before + part;
    assert(t.subrange(n, n + part.len()) =~= part);
    assert(stands_at(t, part, n));
    let u = part + after;
    assert(u.subrange(0, part.len() as int) =~= part);
    assert(stands_at(u, part, 0));
}

/// What stands in a part of a text stands in the text.
pub proof fn lemma_occurs_within(whole: Seq<char>, piece: Seq<char>, part: Seq<char>)
    requires
        occurs(whole, piece),
        occurs(piece, part),
    ensures
        occurs(whole, part),
{
    let i = choose|i: int| stands_at(whole, piece, i);
    let j = choose|j: int| stands_at(piece, part, j);
    assert(whole.subrange(i + j, i + j + part.len()) =~= whole.subrange(
        i,
        i + piece.len(),
    ).subrange(j, j + part.len()));
    assert(stands_at(whole, part, i + j));
}

/// Whether `part` stands anywhere in `s`.
pub fn contains(s: &str, part: &str) -> (r: bool)
    ensures
        r == occurs(s@, part@),
{
    let n: usize = part.unicode_len();
    let len: usize = s.unicode_len();
    if len < n {
        return false;
    }
    let mut i: usize = 0;
    loop
        invariant
            n == part@.len(),
            len == s@.len(),
            i <= len - n,
            forall|k: int| 0 <= k < i ==> !#[trigger] stands_at(s@, part@, k),
        decreases len - i,
    {
        let piece = s.substring_char(i, i + n);
        if same(piece, part) {
            assert(stands_at(s@, part@, i as int));
            return true;
        }
        assert(!stands_at(s@, part@, i as int));
        if i == len - n {
            return false;
        }
        i = i + 1;
    }
}

/// Whether `a` comes before `b` in the order of strings.
pub fn precedes(a: &str, b: &str) -> (r: bool)
    ensures
        r == before(a@, b@),
{
    let x = chars_of(a);
    let y = chars_of(b);
    let mut i: usize = 0;
    proof {
        assert(x@.skip(0) =~= x@);
        assert(y@.skip(0) =~= y@);
    }
    while i < x.len() && i < y.len()
        invariant
            i <= x@.len(),
            i <= y@.len(),
            before(x@.skip(i as int), y@.skip(i as int)) == before(a@, b@),
        decreases x@.len() - i,
    {
        proof {
            assert(x@.skip(i as int).skip(1) =~= x@.skip(i + 1));
            assert(y@.skip(i as int).skip(1) =~= y@.skip(i + 1));
        }
        let p: char = x[i];
        let q: char = y[i];
        if p != q {
            return code(p) < code(q);
        }
        i = i + 1;
    }
    i < y.len()
}

/// A text begins with another, or ends with it, exactly where the rest can be split off.
/// Two texts are the same exactly where their characters are. A character is found where
/// it first stands.
pub proof fn law_what_comparing_does(
    s: &str,
    part: &str,
    rest: Seq<char>,
    begins: bool,
    ends: bool,
    equal: bool,
    c: char,
    place: usize,
)
    requires
        call_ensures(starts_with, (s, part), begins),
        call_ensures(ends_with, (s, part), ends),
        call_ensures(same, (s, part), equal),
        call_ensures(find, (s, c), place),
    ensures
        s@ == part@ + rest ==> begins,
        begins ==> s@ == part@ + s@.skip(part@.len() as int),
        s@ == rest + part@ ==> ends,
        ends ==> s@ == s@.take(s@.len() - part@.len()) + part@,
        equal <==> s@ =~= part@,
        place == s@.len() <==> !s@.contains(c),
        place < s@.len() ==> s@[place as int] == c && !s@.take(place as int).contains(c),
{
    if s@ == part@ + rest {
        assert(s@.take(part@.len() as int) =~= part@);
    }
    if begins {
        assert(s@ =~= part@ + s@.skip(part@.len() as int));
    }
    if s@ == rest + part@ {
        assert(s@.skip(s@.len() - part@.len()) =~= part@);
    }
    if ends {
        assert(s@ =~= s@.take(s@.len() - part@.len()) + part@);
    }
    if place < s@.len() {
        assert(s@.contains(s@[place as int]));
    }
}

} // verus!
