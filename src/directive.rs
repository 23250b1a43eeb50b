//! The inclusion directive of the script format and the split of a script
//! body into text and directives.
//!
//! A directive is a line that starts with two or three `-`, then optional
//! blanks (space or tab), the word `@include`, one blank, one or more quote
//! characters, a bare name (no `;`, blank, newline or quote), a closing quote,
//! an optional `;` and at most one further blank. Whatever follows on that
//! line stays in the body as text.
use vstd::prelude::*;

verus! {

/// The character classes that the directive grammar reads.
pub enum CharClass {
    Dash,
    Blank,
    Quote,
    NameChar,
}

pub open spec fn in_class(c: char, k: CharClass) -> bool {
    match k {
        CharClass::Dash => c == '-',
        CharClass::Blank => c == ' ' || c == '\t',
        CharClass::Quote => c == '"' || c == '\'',
        CharClass::NameChar => !(c == ';' || c == ' ' || c == '\t' || c == '\n' || c == '"' || c
            == '\''),
    }
}

/// How many characters of class `k` follow one another from index `i` on.
pub open spec fn run(s: Seq<char>, i: int, k: CharClass) -> nat
    decreases s.len() - i,
{
    if i < 0 || i >= s.len() || !in_class(s[i], k) {
        0
    } else {
        1 + run(s, i + 1, k)
    }
}

pub open spec fn include_keyword() -> Seq<char> {
    seq!['@', 'i', 'n', 'c', 'l', 'u', 'd', 'e']
}

pub open spec fn keyword_at(s: Seq<char>, i: int) -> bool {
    0 <= i && i + 8 <= s.len() && s.subrange(i, i + 8) == include_keyword()
}

/// A line piece of a script body: verbatim text, or the name that a directive
/// includes.
pub enum Segment {
    Text(Seq<char>),
    Include(Seq<char>),
}

/// The directive that `line` starts with, if any: the included name and the
/// index just past the directive.
pub open spec fn directive(line: Seq<char>) -> Option<(Seq<char>, int)> {
    let d: int = run(line, 0, CharClass::Dash) as int;
    let i1: int = d + run(line, d, CharClass::Blank);
    let i2: int = i1 + 8;
    let i3: int = i2 + 1;
    let q: int = run(line, i3, CharClass::Quote) as int;
    let i4: int = i3 + q;
    let n: int = run(line, i4, CharClass::NameChar) as int;
    let i5: int = i4 + n;
    let i6: int = i5 + 1;
    let i7: int = if i6 < line.len() && line[i6] == ';' {
        i6 + 1
    } else {
        i6
    };
    let i8: int = if i7 < line.len() && in_class(line[i7], CharClass::Blank) {
        i7 + 1
    } else {
        i7
    };
    if (d == 2 || d == 3) && keyword_at(line, i1) && i2 < line.len() && in_class(
        line[i2],
        CharClass::Blank,
    ) && q >= 1 && i5 < line.len() && in_class(line[i5], CharClass::Quote) {
        Some((line.subrange(i4, i5), i8))
    } else {
        None
    }
}

/// The index just past the line that starts at `i`: past its newline, or the
/// end of `s`.
pub open spec fn line_end(s: Seq<char>, i: int) -> int
    decreases s.len() - i,
{
    if i < 0 || i >= s.len() {
        s.len() as int
    } else if s[i] == '\n' {
        i + 1
    } else {
        line_end(s, i + 1)
    }
}

/// The segments of `s` from the line that starts at `i` on. A directive line
/// gives the included name, then the rest of the line as text; any other line
/// is text as a whole.
pub open spec fn segments_from(s: Seq<char>, i: int) -> Seq<Segment>
    decreases s.len() - i,
{
    if i < 0 || i >= s.len() {
        Seq::empty()
    } else {
        let e = line_end(s, i);
        let line = s.subrange(i, e);
        if e <= i || e > s.len() {
            Seq::empty()
        } else {
            match directive(line) {
                Some((name, k)) => seq![
                    Segment::Include(name),
                    Segment::Text(line.subrange(k, line.len() as int)),
                ] + segments_from(s, e),
                None => seq![Segment::Text(line)] + segments_from(s, e),
            }
        }
    }
}

/// The segments of a script body, in order.
pub open spec fn segments(s: Seq<char>) -> Seq<Segment> {
    segments_from(s, 0)
}

/// Whether a body holds no directive.
pub open spec fn has_no_directive(s: Seq<char>) -> bool {
    forall|j: int| 0 <= j < segments(s).len() ==> segments(s)[j] is Text
}

/// The concatenation of the text segments, in order.
pub open spec fn text_of(ss: Seq<Segment>) -> Seq<char>
    decreases ss.len(),
{
    if ss.len() == 0 {
        Seq::empty()
    } else {
        let rest = text_of(ss.drop_first());
        match ss[0] {
            Segment::Text(t) => t + rest,
            Segment::Include(_) => rest,
        }
    }
}

/// A segment of a body as executable data.
pub enum Piece {
    Text(Vec<char>),
    Include(Vec<char>),
}

impl View for Piece {
    type V = Segment;

    open spec fn view(&self) -> Segment {
        match self {
            Piece::Text(t) => Segment::Text(t@),
            Piece::Include(n) => Segment::Include(n@),
        }
    }
}

pub open spec fn pieces_view(v: Seq<Piece>) -> Seq<Segment> {
    v.map_values(|p: Piece| p@)
}

fn in_class_exec(c: char, k: &CharClass) -> (r: bool)
    ensures
        r == in_class(c, *k),
{
    match k {
        CharClass::Dash => c == '-',
        CharClass::Blank => c == ' ' || c == '\t',
        CharClass::Quote => c == '"' || c == '\'',
        CharClass::NameChar => !(c == ';' || c == ' ' || c == '\t' || c == '\n' || c == '"' || c
            == '\''),
    }
}

/// The index just past the run of class `k` that starts at `i`.
fn run_end(s: &Vec<char>, i: usize, k: CharClass) -> (r: usize)
    requires
        i <= s@.len(),
    ensures
        r == i + run(s@, i as int, k),
        r <= s@.len(),
{
    let mut j = i;
    while j < s.len() && in_class_exec(s[j], &k)
        invariant
            i <= j <= s@.len(),
            run(s@, i as int, k) == (j - i) + run(s@, j as int, k),
        decreases s@.len() - j,
    {
        j = j + 1;
    }
    j
}

fn keyword_at_exec(s: &Vec<char>, i: usize) -> (r: bool)
    ensures
        r == keyword_at(s@, i as int),
{
    if i > s.len() || s.len() - i < 8 {
        return false;
    }
    let r = s[i] == '@' && s[i + 1] == 'i' && s[i + 2] == 'n' && s[i + 3] == 'c' && s[i + 4]
        == 'l' && s[i + 5] == 'u' && s[i + 6] == 'd' && s[i + 7] == 'e';
    if r {
        assert(s@.subrange(i as int, i + 8) =~= include_keyword());
    } else {
        assert(!keyword_at(s@, i as int)) by {
            if s@.subrange(i as int, i + 8) == include_keyword() {
                assert(s@.subrange(i as int, i + 8)[0] == include_keyword()[0]);
                assert(s@.subrange(i as int, i + 8)[1] == include_keyword()[1]);
                assert(s@.subrange(i as int, i + 8)[2] == include_keyword()[2]);
                assert(s@.subrange(i as int, i + 8)[3] == include_keyword()[3]);
                assert(s@.subrange(i as int, i + 8)[4] == include_keyword()[4]);
                assert(s@.subrange(i as int, i + 8)[5] == include_keyword()[5]);
                assert(s@.subrange(i as int, i + 8)[6] == include_keyword()[6]);
                assert(s@.subrange(i as int, i + 8)[7] == include_keyword()[7]);
            }
        }
    }
    r
}

/// The characters of `s` from index `i` to index `j`.
pub fn slice_chars(s: &Vec<char>, i: usize, j: usize) -> (r: Vec<char>)
    requires
        i <= j <= s@.len(),
    ensures
        r@ == s@.subrange(i as int, j as int),
{
    let mut r: Vec<char> = Vec::new();
    let mut k = i;
    while k < j
        invariant
            i <= k <= j <= s@.len(),
            r@ == s@.subrange(i as int, k as int),
        decreases j - k,
    {
        r.push(s[k]);
        k = k + 1;
        assert(r@ =~= s@.subrange(i as int, k as int));
    }
    r
}

/// The directive that `line` starts with: the included name and the index
/// just past the directive.
pub fn parse_directive(line: &Vec<char>) -> (r: Option<(Vec<char>, usize)>)
    ensures
        match directive(line@) {
            Some((name, k)) => r matches Some((n, e)) && n@ == name && e == k,
            None => r is None,
        },
{
    let len = line.len();
    let d = run_end(line, 0, CharClass::Dash);
    if d != 2 && d != 3 {
        return None;
    }
    let i1 = run_end(line, d, CharClass::Blank);
    if !keyword_at_exec(line, i1) {
        return None;
    }
    let i2 = i1 + 8;
    if i2 >= len || !in_class_exec(line[i2], &CharClass::Blank) {
        return None;
    }
    let i3 = i2 + 1;
    let i4 = run_end(line, i3, CharClass::Quote);
    if i4 == i3 {
        return None;
    }
    let i5 = run_end(line, i4, CharClass::NameChar);
    if i5 >= len || !in_class_exec(line[i5], &CharClass::Quote) {
        return None;
    }
    let i6 = i5 + 1;
    let i7 = if i6 < len && line[i6] == ';' {
        i6 + 1
    } else {
        i6
    };
    let i8 = if i7 < len && in_class_exec(line[i7], &CharClass::Blank) {
        i7 + 1
    } else {
        i7
    };
    let name = slice_chars(line, i4, i5);
    Some((name, i8))
}

/// The index just past the line of `s` that starts at `i`.
fn line_end_exec(s: &Vec<char>, i: usize) -> (r: usize)
    requires
        i < s@.len(),
    ensures
        r == line_end(s@, i as int),
        i < r <= s@.len(),
{
    let mut j = i;
    while j < s.len() && s[j] != '\n'
        invariant
            i <= j <= s@.len(),
            line_end(s@, i as int) == line_end(s@, j as int),
            forall|m: int| i <= m < j ==> s@[m] != '\n',
        decreases s@.len() - j,
    {
        j = j + 1;
    }
    if j < s.len() {
        j + 1
    } else {
        j
    }
}

/// Splits a script body into its segments.
pub fn split_segments(s: &Vec<char>) -> (r: Vec<Piece>)
    ensures
        pieces_view(r@) == segments(s@),
{
    let mut r: Vec<Piece> = Vec::new();
    let mut i: usize = 0;
    while i < s.len()
        invariant
            i <= s@.len(),
            pieces_view(r@) + segments_from(s@, i as int) == segments(s@),
        decreases s@.len() - i,
    {
        let e = line_end_exec(s, i);
        let line = slice_chars(s, i, e);
        let ghost before = pieces_view(r@);
        match parse_directive(&line) {
            Some((name, k)) => {
                let rest = slice_chars(&line, k, line.len());
                r.push(Piece::Include(name));
                r.push(Piece::Text(rest));
                assert(pieces_view(r@) =~= before + seq![
                    Segment::Include(name@),
                    Segment::Text(rest@),
                ]);
            },
            None => {
                r.push(Piece::Text(line));
                assert(pieces_view(r@) =~= before + seq![Segment::Text(line@)]);
            },
        }
        assert(segments_from(s@, i as int) == pieces_view(r@).subrange(
            before.len() as int,
            pieces_view(r@).len() as int,
        ) + segments_from(s@, e as int));
        i = e;
        assert(pieces_view(r@) + segments_from(s@, i as int) =~= segments(s@));
    }
    assert(segments_from(s@, i as int) == Seq::<Segment>::empty());
    assert(pieces_view(r@) =~= segments(s@));
    r
}

proof fn lemma_line_end_bounds(s: Seq<char>, i: int)
    requires
        0 <= i < s.len(),
    ensures
        i < line_end(s, i) <= s.len(),
    decreases s.len() - i,
{
    if s[i] != '\n' {
        if i + 1 < s.len() {
            lemma_line_end_bounds(s, i + 1);
        } else {
            assert(line_end(s, i + 1) == s.len());
        }
    }
}

/// A body without directives is the concatenation of its text segments.
pub proof fn lemma_text_of_segments(s: Seq<char>, i: int)
    requires
        0 <= i <= s.len(),
        forall|j: int| 0 <= j < segments_from(s, i).len() ==> segments_from(s, i)[j] is Text,
    ensures
        text_of(segments_from(s, i)) == s.subrange(i, s.len() as int),
    decreases s.len() - i,
{
    if i < s.len() {
        lemma_line_end_bounds(s, i);
        let e = line_end(s, i);
        let line = s.subrange(i, e);
        let ss = segments_from(s, i);
        let rest = segments_from(s, e);
        if directive(line) is Some {
            assert(ss[0] is Include);
        } else {
            assert(ss == seq![Segment::Text(line)] + rest);
            assert(ss.drop_first() =~= rest);
            assert forall|j: int| 0 <= j < rest.len() implies rest[j] is Text by {
                assert(rest[j] == ss[j + 1]);
            }
            lemma_text_of_segments(s, e);
            assert(s.subrange(i, s.len() as int) =~= line + s.subrange(e, s.len() as int));
        }
    } else {
        assert(s.subrange(i, s.len() as int) =~= Seq::<char>::empty());
    }
}

/// A body that is empty or ends with a newline.
pub open spec fn line_closed(s: Seq<char>) -> bool {
    s.len() == 0 || s.last() == '\n'
}

/// Each directive of `s` is followed on its line by nothing but the newline.
pub open spec fn directives_end_lines(s: Seq<char>) -> bool {
    forall|j: int|
        0 <= j < segments(s).len() && #[trigger] segments(s)[j] is Include ==> j + 1 < segments(
            s,
        ).len() && segments(s)[j + 1] == Segment::Text(seq!['\n'])
}

proof fn lemma_line_end_shift(p: Seq<char>, q: Seq<char>, j: int)
    requires
        0 <= j <= q.len(),
    ensures
        line_end(p + q, p.len() + j) == p.len() + line_end(q, j),
    decreases q.len() - j,
{
    if j < q.len() {
        assert((p + q)[p.len() + j] == q[j]);
        if q[j] != '\n' {
            lemma_line_end_shift(p, q, j + 1);
        }
    }
}

proof fn lemma_segments_shift(p: Seq<char>, q: Seq<char>, j: int)
    requires
        0 <= j <= q.len(),
    ensures
        segments_from(p + q, p.len() + j) == segments_from(q, j),
    decreases q.len() - j,
{
    if j < q.len() {
        lemma_line_end_shift(p, q, j);
        lemma_line_end_bounds(q, j);
        let e = line_end(q, j);
        assert((p + q).subrange(p.len() + j, p.len() + e) =~= q.subrange(j, e));
        lemma_segments_shift(p, q, e);
    }
}

proof fn lemma_line_end_prefix(a: Seq<char>, b: Seq<char>, i: int)
    requires
        0 <= i < a.len(),
        a.last() == '\n',
    ensures
        line_end(a + b, i) == line_end(a, i),
    decreases a.len() - i,
{
    assert((a + b)[i] == a[i]);
    if a[i] != '\n' {
        lemma_line_end_prefix(a, b, i + 1);
    }
}

proof fn lemma_segments_concat(a: Seq<char>, b: Seq<char>, i: int)
    requires
        0 <= i <= a.len(),
        line_closed(a),
    ensures
        segments_from(a + b, i) == segments_from(a, i) + segments_from(b, 0),
    decreases a.len() - i,
{
    if i == a.len() {
        lemma_segments_shift(a, b, 0);
        assert(segments_from(a, i) + segments_from(b, 0) =~= segments_from(b, 0));
    } else {
        lemma_line_end_prefix(a, b, i);
        lemma_line_end_bounds(a, i);
        let e = line_end(a, i);
        assert((a + b).subrange(i, e) =~= a.subrange(i, e));
        lemma_segments_concat(a, b, e);
        let line = a.subrange(i, e);
        match directive(line) {
            Some((name, k)) => {
                assert(segments_from(a + b, i) =~= seq![
                    Segment::Include(name),
                    Segment::Text(line.subrange(k, line.len() as int)),
                ] + segments_from(a, e) + segments_from(b, 0));
            },
            None => {
                assert(segments_from(a + b, i) =~= seq![Segment::Text(line)] + segments_from(a, e)
                    + segments_from(b, 0));
            },
        }
    }
}

/// Joining a line-closed body without directives to another body without
/// directives makes no directive.
pub proof fn lemma_concat_no_directive(a: Seq<char>, b: Seq<char>)
    requires
        line_closed(a),
        has_no_directive(a),
        has_no_directive(b),
    ensures
        has_no_directive(a + b),
        line_closed(b) ==> line_closed(a + b),
{
    lemma_segments_concat(a, b, 0);
    let sa = segments(a);
    let sb = segments(b);
    assert forall|j: int| 0 <= j < segments(a + b).len() implies segments(a + b)[j] is Text by {
        if j < sa.len() {
            assert(segments(a + b)[j] == sa[j]);
        } else {
            assert(segments(a + b)[j] == sb[j - sa.len()]);
        }
    }
    if b.len() > 0 {
        assert((a + b).last() == b.last());
    } else {
        assert(a + b =~= a);
    }
}

proof fn lemma_line_end_last(s: Seq<char>, i: int)
    requires
        0 <= i < s.len(),
        s.last() == '\n',
    ensures
        s[line_end(s, i) - 1] == '\n',
        forall|m: int| i <= m < line_end(s, i) - 1 ==> s[m] != '\n',
    decreases s.len() - i,
{
    if s[i] != '\n' {
        lemma_line_end_last(s, i + 1);
    }
}

/// A single line, ending with its newline, that is no directive.
proof fn lemma_plain_line(line: Seq<char>)
    requires
        line.len() > 0,
        line.last() == '\n',
        forall|m: int| 0 <= m < line.len() - 1 ==> line[m] != '\n',
        directive(line) is None,
    ensures
        has_no_directive(line),
        line_closed(line),
{
    lemma_line_end_last(line, 0);
    lemma_line_end_bounds(line, 0);
    assert(line_end(line, 0) == line.len()) by {
        if line_end(line, 0) < line.len() {
            assert(line[line_end(line, 0) - 1] == '\n');
        }
    }
    assert(line.subrange(0, line.len() as int) =~= line);
    assert(segments(line) =~= seq![Segment::Text(line)] + segments_from(line, line.len() as int));
}

/// The text segments of a line-closed body whose directives end their lines
/// are line-closed and hold no directive.
pub proof fn lemma_text_segments_clean(s: Seq<char>, i: int, j: int)
    requires
        0 <= i <= s.len(),
        line_closed(s),
        0 <= j < segments_from(s, i).len(),
        segments_from(s, i)[j] is Text,
        forall|x: int|
            0 <= x < segments_from(s, i).len() && #[trigger] segments_from(s, i)[x] is Include ==> x
                + 1 < segments_from(s, i).len() && segments_from(s, i)[x + 1] == Segment::Text(
                seq!['\n'],
            ),
    ensures
        has_no_directive(segments_from(s, i)[j]->Text_0),
        line_closed(segments_from(s, i)[j]->Text_0),
    decreases s.len() - i,
{
    if i < s.len() {
        lemma_line_end_bounds(s, i);
        lemma_line_end_last(s, i);
        let e = line_end(s, i);
        let line = s.subrange(i, e);
        let ss = segments_from(s, i);
        let rest = segments_from(s, e);
        let n: int = if directive(line) is Some { 2 } else { 1 };
        if j < n {
            if directive(line) is Some {
                assert(ss[0] is Include);
                assert(ss[1] == Segment::Text(seq!['\n']));
                lemma_plain_line(seq!['\n']);
            } else {
                lemma_plain_line(line);
            }
        } else {
            assert(ss == ss.take(n) + rest);
            assert forall|x: int|
                0 <= x < rest.len() && #[trigger] rest[x] is Include implies x + 1 < rest.len()
                    && rest[x + 1] == Segment::Text(seq!['\n']) by {
                assert(rest[x] == ss[x + n]);
                assert(rest[x + 1] == ss[x + n + 1]);
            }
            assert(rest[j - n] == ss[j]);
            lemma_text_segments_clean(s, e, j - n);
        }
    }
}

} // verus!
