//! Turns the text of a unit into instruction records: one per line that holds
//! anything but whitespace and a `//` comment, with its 1-based line number.
use vstd::prelude::*;
use crate::text::{chars_of, lines_of};

verus! {

/// The pieces of `s` between occurrences of `sep`, empty pieces included.
pub open spec fn split_on(s: Seq<char>, sep: char) -> Seq<Seq<char>>
    decreases s.len(),
{
    if s.len() == 0 {
        seq![seq![]]
    } else {
        let p = split_on(s.drop_last(), sep);
        if s.last() == sep {
            p.push(seq![])
        } else {
            p.update(p.len() - 1, p.last().push(s.last()))
        }
    }
}

/// The non-empty texts of `ws`, in order.
pub open spec fn non_empty(ws: Seq<Seq<char>>) -> Seq<Seq<char>>
    decreases ws.len(),
{
    if ws.len() == 0 {
        seq![]
    } else if ws.last().len() == 0 {
        non_empty(ws.drop_last())
    } else {
        non_empty(ws.drop_last()).push(ws.last())
    }
}

/// The pieces of `s` between whitespace characters, empty pieces included.
pub open spec fn split_space(s: Seq<char>) -> Seq<Seq<char>>
    decreases s.len(),
{
    if s.len() == 0 {
        seq![seq![]]
    } else {
        let p = split_space(s.drop_last());
        if is_space(s.last()) {
            p.push(seq![])
        } else {
            p.update(p.len() - 1, p.last().push(s.last()))
        }
    }
}

/// The whitespace-separated words of a line.
pub open spec fn words(s: Seq<char>) -> Seq<Seq<char>> {
    non_empty(split_space(s))
}

/// The characters with the Unicode White_Space property.
pub open spec fn is_space(c: char) -> bool {
    ('\t' <= c && c <= '\r') || c == ' ' || c == '\u{85}' || c == '\u{A0}' || c == '\u{1680}'
        || ('\u{2000}' <= c && c <= '\u{200A}') || c == '\u{2028}' || c == '\u{2029}'
        || c == '\u{202F}' || c == '\u{205F}' || c == '\u{3000}'
}

/// Whether `c` is whitespace.
pub fn is_space_char(c: char) -> (r: bool)
    ensures
        r == is_space(c),
{
    ('\t' <= c && c <= '\r') || c == ' ' || c == '\u{85}' || c == '\u{A0}' || c == '\u{1680}'
        || ('\u{2000}' <= c && c <= '\u{200A}') || c == '\u{2028}' || c == '\u{2029}'
        || c == '\u{202F}' || c == '\u{205F}' || c == '\u{3000}'
}

pub open spec fn comment_at(s: Seq<char>, k: int) -> bool {
    0 <= k && k + 1 < s.len() && s[k] == '/' && s[k + 1] == '/'
}

/// `k` is where the code part of `s` ends: at the first `//`, or at the end.
pub open spec fn is_code_end(s: Seq<char>, k: int) -> bool {
    &&& 0 <= k <= s.len()
    &&& (k == s.len() || comment_at(s, k))
    &&& forall|j: int| 0 <= j < k ==> !comment_at(s, j)
}

/// `s` without its `//` comment.
pub open spec fn code_part(s: Seq<char>) -> Seq<char> {
    s.take(choose|k: int| is_code_end(s, k))
}

/// `s` without leading and trailing whitespace.
pub open spec fn trim(s: Seq<char>) -> Seq<char> {
    trim_end(trim_start(s))
}

pub open spec fn trim_start(s: Seq<char>) -> Seq<char>
    decreases s.len(),
{
    if s.len() > 0 && is_space(s[0]) {
        trim_start(s.drop_first())
    } else {
        s
    }
}

pub open spec fn trim_end(s: Seq<char>) -> Seq<char>
    decreases s.len(),
{
    if s.len() > 0 && is_space(s.last()) {
        trim_end(s.drop_last())
    } else {
        s
    }
}

/// What a line holds once its comment and outer whitespace are gone.
pub open spec fn clean(line: Seq<char>) -> Seq<char> {
    trim(code_part(line))
}

/// The record of each line of `ls` that holds an instruction; the line at
/// index `i` is numbered `i + 1`.
pub open spec fn records(ls: Seq<Seq<char>>) -> Seq<(Seq<Seq<char>>, nat)>
    decreases ls.len(),
{
    if ls.len() == 0 {
        seq![]
    } else if clean(ls.last()).len() == 0 {
        records(ls.drop_last())
    } else {
        records(ls.drop_last()).push((words(clean(ls.last())), ls.len()))
    }
}

/// The records of a whole unit's text.
pub open spec fn parse_spec(source: Seq<char>) -> Seq<(Seq<Seq<char>>, nat)> {
    records(split_on(source, '\n'))
}

#[derive(Debug)]
pub struct LineSource {
    pub tokens: Vec<String>,
    pub line: usize,
}

impl LineSource {
    pub open spec fn view(&self) -> (Seq<Seq<char>>, nat) {
        (lines_of(self.tokens@), self.line as nat)
    }
}

pub open spec fn records_of(v: Seq<LineSource>) -> Seq<(Seq<Seq<char>>, nat)> {
    v.map_values(|l: LineSource| l.view())
}

pub proof fn lemma_code_end_unique(s: Seq<char>, k1: int, k2: int)
    requires
        is_code_end(s, k1),
        is_code_end(s, k2),
    ensures
        k1 == k2,
{
    if k1 < k2 {
        assert(!comment_at(s, k1));
    } else if k2 < k1 {
        assert(!comment_at(s, k2));
    }
}

proof fn lemma_trim_start_skip(s: Seq<char>, a: int)
    requires
        0 <= a <= s.len(),
        forall|j: int| 0 <= j < a ==> is_space(#[trigger] s[j]),
    ensures
        trim_start(s) == trim_start(s.subrange(a, s.len() as int)),
    decreases a,
{
    if a > 0 {
        let t = s.drop_first();
        assert forall|j: int| 0 <= j < a - 1 implies is_space(#[trigger] t[j]) by {
            assert(t[j] == s[j + 1]);
        }
        lemma_trim_start_skip(t, a - 1);
        assert(t.subrange(a - 1, t.len() as int) =~= s.subrange(a, s.len() as int));
    } else {
        assert(s.subrange(0, s.len() as int) =~= s);
    }
}

proof fn lemma_trim_end_skip(s: Seq<char>, b: int)
    requires
        0 <= b <= s.len(),
        forall|j: int| b <= j < s.len() ==> is_space(#[trigger] s[j]),
    ensures
        trim_end(s) == trim_end(s.subrange(0, b)),
    decreases s.len() - b,
{
    if b < s.len() {
        let t = s.drop_last();
        assert forall|j: int| b <= j < t.len() implies is_space(#[trigger] t[j]) by {
            assert(t[j] == s[j]);
        }
        lemma_trim_end_skip(t, b);
        assert(t.subrange(0, b) =~= s.subrange(0, b));
    } else {
        assert(s.subrange(0, b) =~= s);
    }
}

/// A word that holds neither whitespace nor `/`.
pub open spec fn plain_word(w: Seq<char>) -> bool {
    w.len() > 0 && forall|i: int| 0 <= i < w.len() ==> !is_space(#[trigger] w[i]) && w[i] != '/'
}

/// Words joined by single spaces.
pub open spec fn join_words(ws: Seq<Seq<char>>) -> Seq<char>
    decreases ws.len(),
{
    if ws.len() <= 1 {
        if ws.len() == 1 {
            ws[0]
        } else {
            seq![]
        }
    } else {
        join_words(ws.drop_last()) + seq![' '] + ws.last()
    }
}

/// Lines joined by newlines.
pub open spec fn join_newlines(ls: Seq<Seq<char>>) -> Seq<char>
    decreases ls.len(),
{
    if ls.len() <= 1 {
        if ls.len() == 1 {
            ls[0]
        } else {
            seq![]
        }
    } else {
        join_newlines(ls.drop_last()) + seq!['\n'] + ls.last()
    }
}

/// The text of a unit whose line `j` holds the words `lines[j]`.
pub open spec fn unit_text(lines: Seq<Seq<Seq<char>>>) -> Seq<char> {
    join_newlines(lines.map_values(|ws: Seq<Seq<char>>| join_words(ws)))
}

proof fn lemma_split_space_tail(p: Seq<char>, y: Seq<char>)
    requires
        forall|i: int| 0 <= i < y.len() ==> !is_space(#[trigger] y[i]),
    ensures
        split_space(p + y) == split_space(p).update(
            split_space(p).len() - 1,
            split_space(p).last() + y,
        ),
        split_space(p).len() >= 1,
    decreases y.len(),
{
    lemma_split_space_nonempty(p);
    if y.len() == 0 {
        assert(p + y =~= p);
        assert(split_space(p).last() + y =~= split_space(p).last());
        assert(split_space(p).update(split_space(p).len() - 1, split_space(p).last()) =~= split_space(p));
    } else {
        let y0 = y.drop_last();
        lemma_split_space_tail(p, y0);
        assert((p + y).drop_last() =~= p + y0);
        assert((p + y).last() == y.last());
        assert(!is_space(y.last()));
        let sp = split_space(p);
        let q = split_space(p + y0);
        assert(q.len() == sp.len());
        assert(q.last() == sp.last() + y0);
        assert(split_space(p + y) == q.update(q.len() - 1, q.last().push(y.last())));
        assert((sp.last() + y0).push(y.last()) =~= sp.last() + y);
        assert(split_space(p + y) =~= split_space(p).update(split_space(p).len() - 1, split_space(p).last() + y));
    }
}

proof fn lemma_split_space_nonempty(p: Seq<char>)
    ensures
        split_space(p).len() >= 1,
    decreases p.len(),
{
    if p.len() > 0 {
        lemma_split_space_nonempty(p.drop_last());
    }
}

/// Plain words joined by spaces split back into those words.
pub proof fn lemma_words_of_join(ws: Seq<Seq<char>>)
    requires
        ws.len() >= 1,
        forall|j: int| 0 <= j < ws.len() ==> plain_word(#[trigger] ws[j]),
    ensures
        split_space(join_words(ws)) == ws,
        words(join_words(ws)) == ws,
    decreases ws.len(),
{
    assert(plain_word(ws.last()));
    if ws.len() == 1 {
        lemma_split_space_tail(seq![], ws[0]);
        assert(Seq::<char>::empty() + ws[0] =~= ws[0]);
        assert(split_space(Seq::<char>::empty()) =~= seq![Seq::<char>::empty()]);
        assert(Seq::<char>::empty() + ws[0] =~= ws[0]);
        assert(split_space(ws[0]) =~= ws);
        assert(non_empty(ws) == non_empty(ws.drop_last()).push(ws[0]));
        assert(ws.drop_last() =~= Seq::<Seq<char>>::empty());
        assert(non_empty(ws) =~= ws);
    } else {
        let front = ws.drop_last();
        assert forall|j: int| 0 <= j < front.len() implies plain_word(#[trigger] front[j]) by {
            assert(front[j] == ws[j]);
        }
        lemma_words_of_join(front);
        let p = join_words(front) + seq![' '];
        assert(p.drop_last() =~= join_words(front));
        assert(split_space(p) == ws.drop_last().push(seq![]));
        lemma_split_space_tail(p, ws.last());
        assert(join_words(ws) == p + ws.last());
        assert(split_space(join_words(ws)) =~= ws);
        assert(ws.last().len() > 0);
        assert(non_empty(ws) == non_empty(front).push(ws.last()));
        assert(non_empty(ws) =~= ws);
    }
}

/// A line of plain words is its own clean text.
pub proof fn lemma_clean_join(ws: Seq<Seq<char>>)
    requires
        ws.len() >= 1,
        forall|j: int| 0 <= j < ws.len() ==> plain_word(#[trigger] ws[j]),
    ensures
        clean(join_words(ws)) == join_words(ws),
        forall|i: int| 0 <= i < join_words(ws).len() ==> #[trigger] join_words(ws)[i] != '/' && join_words(ws)[i] != '\n',
        join_words(ws).len() > 0,
    decreases ws.len(),
{
    let l = join_words(ws);
    assert(plain_word(ws.last()));
    assert(plain_word(ws[0]));
    if ws.len() > 1 {
        let front = ws.drop_last();
        assert forall|j: int| 0 <= j < front.len() implies plain_word(#[trigger] front[j]) by {
            assert(front[j] == ws[j]);
        }
        lemma_clean_join(front);
        assert forall|i: int| 0 <= i < l.len() implies #[trigger] l[i] != '/' && l[i] != '\n' by {
            let f = join_words(front);
            if i < f.len() {
                assert(l[i] == f[i]);
            } else if i > f.len() {
                assert(l[i] == ws.last()[i - f.len() - 1]);
                assert(is_space('\n'));
            }
        }
        assert(l[0] == join_words(front)[0]);
        lemma_first_word_char(front);
    } else {
        assert forall|i: int| 0 <= i < l.len() implies #[trigger] l[i] != '/' && l[i] != '\n' by {
            assert(is_space('\n'));
        }
    }
    lemma_first_word_char(ws);
    assert(is_code_end(l, l.len() as int));
    let k = choose|k: int| is_code_end(l, k);
    lemma_code_end_unique(l, k, l.len() as int);
    assert(code_part(l) =~= l);
    assert(l.last() == ws.last().last());
    assert(!is_space(l.last()));
    assert(trim_start(l) == l);
    assert(trim_end(l) == l);
}

/// A line of plain words starts with the first word's first character.
proof fn lemma_first_word_char(ws: Seq<Seq<char>>)
    requires
        ws.len() >= 1,
        forall|j: int| 0 <= j < ws.len() ==> plain_word(#[trigger] ws[j]),
    ensures
        join_words(ws).len() > 0,
        join_words(ws)[0] == ws[0][0],
        !is_space(join_words(ws)[0]),
    decreases ws.len(),
{
    assert(plain_word(ws[0]));
    if ws.len() > 1 {
        let front = ws.drop_last();
        assert forall|j: int| 0 <= j < front.len() implies plain_word(#[trigger] front[j]) by {
            assert(front[j] == ws[j]);
        }
        lemma_first_word_char(front);
    }
}

/// Lines `j` holding the words `lines[j]`, numbered from 1.
pub open spec fn numbered_records(lines: Seq<Seq<Seq<char>>>) -> Seq<(Seq<Seq<char>>, nat)> {
    Seq::new(lines.len(), |j: int| (lines[j], (j + 1) as nat))
}

/// Each line holds at least one word, and every word is plain.
pub open spec fn plain_lines(lines: Seq<Seq<Seq<char>>>) -> bool {
    forall|j: int| 0 <= j < lines.len() ==> (#[trigger] lines[j]).len() >= 1
        && forall|k: int| 0 <= k < lines[j].len() ==> plain_word(#[trigger] lines[j][k])
}

proof fn lemma_split_on_tail(p: Seq<char>, y: Seq<char>, sep: char)
    requires
        forall|i: int| 0 <= i < y.len() ==> #[trigger] y[i] != sep,
    ensures
        split_on(p + y, sep) == split_on(p, sep).update(
            split_on(p, sep).len() - 1,
            split_on(p, sep).last() + y,
        ),
        split_on(p, sep).len() >= 1,
    decreases y.len(),
{
    lemma_split_on_nonempty(p, sep);
    if y.len() == 0 {
        assert(p + y =~= p);
        assert(split_on(p, sep).last() + y =~= split_on(p, sep).last());
        assert(split_on(p, sep).update(split_on(p, sep).len() - 1, split_on(p, sep).last()) =~= split_on(p, sep));
    } else {
        let y0 = y.drop_last();
        lemma_split_on_tail(p, y0, sep);
        assert((p + y).drop_last() =~= p + y0);
        assert((p + y).last() == y.last());
        assert(y.last() != sep);
        let sp = split_on(p, sep);
        let q = split_on(p + y0, sep);
        assert(q.len() == sp.len());
        assert(q.last() == sp.last() + y0);
        assert(split_on(p + y, sep) == q.update(q.len() - 1, q.last().push(y.last())));
        assert((sp.last() + y0).push(y.last()) =~= sp.last() + y);
        assert(split_on(p + y, sep) =~= sp.update(sp.len() - 1, sp.last() + y));
    }
}

proof fn lemma_split_on_nonempty(p: Seq<char>, sep: char)
    ensures
        split_on(p, sep).len() >= 1,
    decreases p.len(),
{
    if p.len() > 0 {
        lemma_split_on_nonempty(p.drop_last(), sep);
    }
}

/// Lines without newlines, joined by newlines, split back into those lines.
proof fn lemma_split_join_newlines(ls: Seq<Seq<char>>)
    requires
        ls.len() >= 1,
        forall|j: int, i: int| 0 <= j < ls.len() && 0 <= i < ls[j].len() ==> #[trigger] ls[j][i] != '\n',
    ensures
        split_on(join_newlines(ls), '\n') == ls,
    decreases ls.len(),
{
    let y = ls.last();
    assert forall|i: int| 0 <= i < y.len() implies #[trigger] y[i] != '\n' by {
        assert(ls[ls.len() - 1][i] != '\n');
    }
    if ls.len() == 1 {
        lemma_split_on_tail(seq![], y, '\n');
        assert(Seq::<char>::empty() + y =~= y);
        assert(split_on(Seq::<char>::empty(), '\n') =~= seq![Seq::<char>::empty()]);
        assert(split_on(y, '\n') =~= ls);
    } else {
        let front = ls.drop_last();
        assert forall|j: int, i: int| 0 <= j < front.len() && 0 <= i < front[j].len() implies #[trigger] front[j][i] != '\n' by {
            assert(front[j] == ls[j]);
        }
        lemma_split_join_newlines(front);
        let p = join_newlines(front) + seq!['\n'];
        assert(p.drop_last() =~= join_newlines(front));
        assert(split_on(p, '\n') == front.push(seq![]));
        lemma_split_on_tail(p, y, '\n');
        assert(join_newlines(ls) == p + y);
        assert(split_on(join_newlines(ls), '\n') =~= ls);
    }
}

/// A unit whose lines hold plain words parses into those words, line by
/// line, numbered from 1.
pub proof fn lemma_parse_unit(lines: Seq<Seq<Seq<char>>>)
    requires
        lines.len() >= 1,
        plain_lines(lines),
    ensures
        parse_spec(unit_text(lines)) == numbered_records(lines),
    decreases lines.len(),
{
    let ls = lines.map_values(|ws: Seq<Seq<char>>| join_words(ws));
    assert forall|j: int, i: int| 0 <= j < ls.len() && 0 <= i < ls[j].len() implies #[trigger] ls[j][i] != '\n' by {
        assert(lines[j].len() >= 1);
        lemma_clean_join(lines[j]);
    }
    lemma_split_join_newlines(ls);
    lemma_records_of_lines(lines);
}

proof fn lemma_records_of_lines(lines: Seq<Seq<Seq<char>>>)
    requires
        plain_lines(lines),
    ensures
        records(lines.map_values(|ws: Seq<Seq<char>>| join_words(ws))) == numbered_records(lines),
    decreases lines.len(),
{
    let ls = lines.map_values(|ws: Seq<Seq<char>>| join_words(ws));
    if lines.len() == 0 {
        assert(numbered_records(lines) =~= Seq::<(Seq<Seq<char>>, nat)>::empty());
    } else {
        let front = lines.drop_last();
        assert forall|j: int| 0 <= j < front.len() implies (#[trigger] front[j]).len() >= 1
            && forall|k: int| 0 <= k < front[j].len() ==> plain_word(#[trigger] front[j][k]) by {
            assert(front[j] == lines[j]);
        }
        lemma_records_of_lines(front);
        assert(ls.drop_last() =~= front.map_values(|ws: Seq<Seq<char>>| join_words(ws)));
        let last = lines.last();
        assert(last == lines[lines.len() - 1]);
        lemma_clean_join(last);
        lemma_words_of_join(last);
        assert(ls.last() == join_words(last));
        assert(numbered_records(lines) =~= numbered_records(front).push((last, lines.len() as nat)));
    }
}

pub struct Parser;

impl Parser {
    /// The end of the code part of `chars[start..end]`, as an index of `chars`.
    pub(crate) fn comment_start(chars: &Vec<char>, start: usize, end: usize) -> (k: usize)
        requires
            start <= end <= chars@.len(),
        ensures
            start <= k <= end,
            is_code_end(chars@.subrange(start as int, end as int), k - start),
    {
        let ghost s = chars@.subrange(start as int, end as int);
        let mut k = start;
        while end - k > 1
            invariant
                start <= k <= end,
                end <= chars@.len(),
                s == chars@.subrange(start as int, end as int),
                forall|j: int| 0 <= j < k - start ==> !comment_at(s, j),
            decreases end - k,
        {
            if chars[k] == '/' && chars[k + 1] == '/' {
                assert(comment_at(s, k - start));
                return k;
            }
            k = k + 1;
        }
        if k < end {
            assert(!comment_at(s, k - start));
            k = end;
        }
        k
    }

    /// The bounds of `chars[start..end]` without outer whitespace.
    pub(crate) fn trim_bounds(chars: &Vec<char>, start: usize, end: usize) -> (r: (usize, usize))
        requires
            start <= end <= chars@.len(),
        ensures
            start <= r.0 <= r.1 <= end,
            chars@.subrange(r.0 as int, r.1 as int) == trim(chars@.subrange(start as int, end as int)),
    {
        let ghost s = chars@.subrange(start as int, end as int);
        let mut a = start;
        while a < end && is_space_char(chars[a])
            invariant
                start <= a <= end,
                end <= chars@.len(),
                s == chars@.subrange(start as int, end as int),
                forall|j: int| 0 <= j < a - start ==> is_space(#[trigger] s[j]),
            decreases end - a,
        {
            assert(is_space(s[a - start]));
            a = a + 1;
        }
        proof {
            lemma_trim_start_skip(s, a - start);
            let t = s.subrange(a - start, s.len() as int);
            assert(t =~= chars@.subrange(a as int, end as int));
            if t.len() > 0 {
                assert(!is_space(t[0]));
            }
        }
        let mut b = end;
        while b > a && is_space_char(chars[b - 1])
            invariant
                start <= a <= b <= end,
                end <= chars@.len(),
                forall|j: int| b - a <= j < end - a ==> is_space(#[trigger] chars@.subrange(a as int, end as int)[j]),
            decreases b,
        {
            assert(is_space(chars@.subrange(a as int, end as int)[b - 1 - a]));
            b = b - 1;
        }
        proof {
            let t = chars@.subrange(a as int, end as int);
            lemma_trim_end_skip(t, b - a);
            assert(t.subrange(0, b - a) =~= chars@.subrange(a as int, b as int));
            let u = chars@.subrange(a as int, b as int);
            if u.len() > 0 {
                assert(!is_space(u.last()));
                assert(u.len() > 0 && is_space(u[0]) ==> false) by {
                    assert(u[0] == t[0]);
                }
            } else {
                assert(trim_start(u) == u);
            }
            assert(trim_start(u) == u);
            assert(trim_start(s) == t);
        }
        (a, b)
    }

    /// The words of `chars[a..b]`, which is also `text[a..b]`.
    fn words_in(text: &str, chars: &Vec<char>, a: usize, b: usize) -> (r: Vec<String>)
        requires
            chars@ == text@,
            a <= b <= chars@.len(),
        ensures
            lines_of(r@) == words(chars@.subrange(a as int, b as int)),
    {
        let ghost s = chars@.subrange(a as int, b as int);
        let ghost mut done: Seq<Seq<char>> = seq![];
        let mut out: Vec<String> = Vec::new();
        let mut start = a;
        let mut i = a;
        proof {
            assert(s.take(0) =~= Seq::<char>::empty());
            assert(chars@.subrange(a as int, a as int) =~= Seq::<char>::empty());
        }
        while i < b
            invariant
                chars@ == text@,
                a <= start <= i <= b <= chars@.len(),
                s == chars@.subrange(a as int, b as int),
                split_space(s.take(i - a)) == done.push(chars@.subrange(start as int, i as int)),
                lines_of(out@) == non_empty(done),
            decreases b - i,
        {
            let ghost prefix = s.take(i - a + 1);
            assert(prefix.drop_last() =~= s.take(i - a));
            assert(prefix.last() == chars@[i as int]);
            if is_space_char(chars[i]) {
                let ghost piece = chars@.subrange(start as int, i as int);
                assert(done.push(piece).drop_last() =~= done);
                if start < i {
                    let word = String::from_str(text.substring_char(start, i));
                    out.push(word);
                    assert(lines_of(out@) =~= non_empty(done.push(piece)));
                } else {
                    assert(non_empty(done.push(piece)) == non_empty(done));
                }
                proof {
                    done = done.push(piece);
                }
                start = i + 1;
                assert(chars@.subrange(start as int, start as int) =~= Seq::<char>::empty());
            } else {
                assert(chars@.subrange(start as int, i as int + 1) =~= chars@.subrange(start as int, i as int).push(chars@[i as int]));
            }
            i = i + 1;
        }
        assert(s.take(b - a) =~= s);
        let ghost piece = chars@.subrange(start as int, b as int);
        assert(done.push(piece).drop_last() =~= done);
        if start < b {
            let word = String::from_str(text.substring_char(start, b));
            out.push(word);
            assert(lines_of(out@) =~= non_empty(done.push(piece)));
        } else {
            assert(non_empty(done.push(piece)) == non_empty(done));
        }
        out
    }

    /// The words of a line.
    pub fn generate_tokens(source: String) -> (r: Vec<String>)
        ensures
            lines_of(r@) == words(source@),
    {
        let chars = chars_of(source.as_str());
        let r = Self::words_in(source.as_str(), &chars, 0, chars.len());
        assert(chars@.subrange(0, chars@.len() as int) =~= source@);
        r
    }

    /// Adds the record of the line `chars[a..b]`, numbered `line`, if it holds
    /// an instruction.
    fn add_record(out: &mut Vec<LineSource>, text: &str, chars: &Vec<char>, a: usize, b: usize, line: usize)
        requires
            chars@ == text@,
            a <= b <= chars@.len(),
        ensures
            ({
                let l = chars@.subrange(a as int, b as int);
                records_of(final(out)@) == if clean(l).len() == 0 {
                    records_of(old(out)@)
                } else {
                    records_of(old(out)@).push((words(clean(l)), line as nat))
                }
            }),
    {
        let ghost l = chars@.subrange(a as int, b as int);
        let cut = Self::comment_start(chars, a, b);
        proof {
            let k = choose|k: int| is_code_end(l, k);
            lemma_code_end_unique(l, k, cut - a);
            assert(code_part(l) =~= chars@.subrange(a as int, cut as int));
        }
        let (x, y) = Self::trim_bounds(chars, a, cut);
        if x < y {
            let tokens = Self::words_in(text, chars, x, y);
            out.push(LineSource { tokens, line });
            assert(records_of(out@) =~= records_of(old(out)@).push((words(clean(l)), line as nat)));
        } else {
            assert(clean(l).len() == 0);
            assert(records_of(out@) =~= records_of(old(out)@));
        }
    }

    /// The instruction records of a unit's text.
    pub fn parse(source: String) -> (r: Vec<LineSource>)
        requires
            source@.len() < usize::MAX,
        ensures
            records_of(r@) == parse_spec(source@),
    {
        let text = source.as_str();
        let chars = chars_of(text);
        let n = chars.len();
        let ghost mut done: Seq<Seq<char>> = seq![];
        let mut out: Vec<LineSource> = Vec::new();
        let mut count: usize = 0;
        let mut start: usize = 0;
        let mut i: usize = 0;
        proof {
            assert(chars@.take(0) =~= Seq::<char>::empty());
            assert(chars@.subrange(0, 0) =~= Seq::<char>::empty());
        }
        while i < n
            invariant
                chars@ == text@,
                text@ == source@,
                n == chars@.len(),
                n < usize::MAX,
                start <= i <= n,
                count == done.len(),
                count <= i,
                split_on(chars@.take(i as int), '\n') == done.push(chars@.subrange(start as int, i as int)),
                records_of(out@) == records(done),
            decreases n - i,
        {
            let ghost prefix = chars@.take(i + 1);
            assert(prefix.drop_last() =~= chars@.take(i as int));
            if chars[i] == '\n' {
                let ghost piece = chars@.subrange(start as int, i as int);
                Self::add_record(&mut out, text, &chars, start, i, count + 1);
                proof {
                    let before = done;
                    done = done.push(piece);
                    assert(done.drop_last() =~= before);
                }
                count = count + 1;
                start = i + 1;
                assert(chars@.subrange(start as int, start as int) =~= Seq::<char>::empty());
            } else {
                assert(chars@.subrange(start as int, i as int + 1) =~= chars@.subrange(start as int, i as int).push(chars@[i as int]));
            }
            i = i + 1;
        }
        assert(chars@.take(n as int) =~= source@);
        let ghost piece = chars@.subrange(start as int, n as int);
        Self::add_record(&mut out, text, &chars, start, n, count + 1);
        proof {
            let all = done.push(piece);
            assert(all.drop_last() =~= done);
        }
        out
    }
}

} // verus!
