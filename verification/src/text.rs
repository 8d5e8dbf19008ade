//! Character-level helpers shared by the parsers: strings are read into
//! vectors of characters once and cut into pieces by index.

use vstd::prelude::*;

verus! {

/// `String::push` appends one character to the end of the string.
pub assume_specification[ String::push ](s: &mut String, c: char)
    ensures
        final(s)@ == old(s)@.push(c),
;

/// The characters of `s`, in order.
pub fn chars_of(s: &str) -> (v: Vec<char>)
    ensures
        v@ == s@,
{
    broadcast use vstd::string::group_string_axioms;

    let mut v: Vec<char> = Vec::new();
    for c in it: s.chars()
        invariant
            it.seq() == s@,
            v@ == s@.take(it.index()),
    {
        v.push(c);
    }
    assert(s@.take(s@.len() as int) == s@);
    v
}

/// Appends the characters `chars[from..to]` to `s`.
pub fn append_range(s: &mut String, chars: &Vec<char>, from: usize, to: usize)
    requires
        from <= to <= chars.len(),
    ensures
        final(s)@ == old(s)@ + chars@.subrange(from as int, to as int),
{
    let mut i: usize = from;
    while i < to
        invariant
            from <= i <= to <= chars.len(),
            s@ == old(s)@ + chars@.subrange(from as int, i as int),
        decreases to - i,
    {
        s.push(chars[i]);
        i += 1;
        assert(chars@.subrange(from as int, i as int) == chars@.subrange(
            from as int,
            i - 1,
        ).push(chars@[i - 1]));
    }
}

/// The string made of the characters `chars[from..to]`.
pub fn string_of(chars: &Vec<char>, from: usize, to: usize) -> (s: String)
    requires
        from <= to <= chars.len(),
    ensures
        s@ == chars@.subrange(from as int, to as int),
{
    let mut s = String::new();
    append_range(&mut s, chars, from, to);
    s
}

/// Whether two texts hold the same characters.
pub fn same_text(a: &str, b: &str) -> (same: bool)
    ensures
        same == (a@ == b@),
{
    let x = chars_of(a);
    let y = chars_of(b);
    if x.len() != y.len() {
        return false;
    }
    let mut i: usize = 0;
    while i < x.len()
        invariant
            x@ == a@,
            y@ == b@,
            x.len() == y.len(),
            i <= x.len(),
            forall|j: int| 0 <= j < i ==> x@[j] == y@[j],
        decreases x.len() - i,
    {
        if x[i] != y[i] {
            return false;
        }
        i += 1;
    }
    assert(x@ =~= y@);
    true
}

/// `pat` stands in `s` at position `i`.
pub open spec fn occurs_at(s: Seq<char>, pat: Seq<char>, i: int) -> bool {
    0 <= i && i + pat.len() <= s.len() && s.subrange(i, i + pat.len()) == pat
}

/// `pat` stands in `s` at position `i` and nowhere before it.
pub open spec fn is_first_occurrence(s: Seq<char>, pat: Seq<char>, i: int) -> bool {
    occurs_at(s, pat, i) && forall|j: int| 0 <= j < i ==> !occurs_at(s, pat, j)
}

/// The position of the leftmost occurrence of `pat` in `s`, if there is one.
pub open spec fn first_occurrence(s: Seq<char>, pat: Seq<char>) -> Option<int> {
    if exists|i: int| occurs_at(s, pat, i) {
        Some(choose|i: int| is_first_occurrence(s, pat, i))
    } else {
        None
    }
}

/// `s` cut at the leftmost occurrence of `pat`: what stands before it and
/// what stands after it. `None` when `pat` does not occur.
pub open spec fn split_once(s: Seq<char>, pat: Seq<char>) -> Option<(Seq<char>, Seq<char>)> {
    match first_occurrence(s, pat) {
        Some(i) => Some((s.take(i), s.skip(i + pat.len()))),
        None => None,
    }
}

/// A position that satisfies `is_first_occurrence` is the one that
/// `first_occurrence` names.
pub proof fn lemma_first_occurrence_is(s: Seq<char>, pat: Seq<char>, i: int)
    requires
        is_first_occurrence(s, pat, i),
    ensures
        first_occurrence(s, pat) == Some(i),
{
    assert(occurs_at(s, pat, i));
    let k = choose|k: int| is_first_occurrence(s, pat, k);
    assert(is_first_occurrence(s, pat, k));
    if k < i {
        assert(!occurs_at(s, pat, k));
    }
    if i < k {
        assert(!occurs_at(s, pat, i));
    }
}

/// Whether `pat` stands in `chars[from..]` at offset `at - from`.
fn matches_at(chars: &Vec<char>, from: usize, pat: &Vec<char>, at: usize) -> (b: bool)
    requires
        from <= at,
        at + pat.len() <= chars.len(),
    ensures
        b == occurs_at(chars@.skip(from as int), pat@, at - from),
{
    let ghost tail = chars@.skip(from as int);
    let mut k: usize = 0;
    while k < pat.len()
        invariant
            from <= at,
            at + pat.len() <= chars.len(),
            k <= pat.len(),
            tail == chars@.skip(from as int),
            forall|j: int| 0 <= j < k ==> chars@[at + j] == pat@[j],
        decreases pat.len() - k,
    {
        if chars[at + k] != pat[k] {
            proof {
                let window = tail.subrange(at - from, at - from + pat.len());
                assert(window[k as int] == chars@[at + k]);
            }
            return false;
        }
        k += 1;
    }
    proof {
        let window = tail.subrange(at - from, at - from + pat.len());
        assert forall|j: int| 0 <= j < pat.len() implies window[j] == pat@[j] by {
            assert(window[j] == chars@[at + j]);
        }
        assert(window =~= pat@);
    }
    true
}

/// The leftmost position at or after `from` where `pat` stands in `chars`.
pub fn find_from(chars: &Vec<char>, from: usize, pat: &Vec<char>) -> (found: Option<usize>)
    requires
        from <= chars.len(),
    ensures
        found matches Some(at) ==> from <= at && at + pat.len() <= chars.len()
            && first_occurrence(chars@.skip(from as int), pat@) == Some(at - from),
        found is None ==> first_occurrence(chars@.skip(from as int), pat@) is None,
{
    let ghost tail = chars@.skip(from as int);
    if pat.len() > chars.len() - from {
        assert(forall|j: int| !occurs_at(tail, pat@, j));
        return None;
    }
    let last: usize = chars.len() - pat.len();
    let mut at: usize = from;
    loop
        invariant
            from <= at <= last,
            last == chars.len() - pat.len(),
            tail == chars@.skip(from as int),
            forall|j: int| 0 <= j < at - from ==> !occurs_at(tail, pat@, j),
        decreases last - at,
    {
        if matches_at(chars, from, pat, at) {
            proof {
                lemma_first_occurrence_is(tail, pat@, at - from);
            }
            return Some(at);
        }
        if at == last {
            assert(forall|j: int| !occurs_at(tail, pat@, j));
            return None;
        }
        at += 1;
    }
}

/// ASCII whitespace: space, tab, line feed, form feed and carriage return.
pub open spec fn is_blank(c: char) -> bool {
    c == ' ' || c == '\t' || c == '\n' || c == '\x0C' || c == '\r'
}

/// Where the run of characters that starts at `from` ends, a run being
/// made of blanks only (`blank`) or of other characters only (`!blank`).
pub open spec fn run_end(s: Seq<char>, from: int, blank: bool) -> int
    decreases s.len() - from,
{
    if 0 <= from < s.len() && is_blank(s[from]) == blank {
        run_end(s, from + 1, blank)
    } else {
        from
    }
}

/// The fields of `s` that start at or after `from`: the maximal runs of
/// characters that are not blank, from left to right.
pub open spec fn fields_from(s: Seq<char>, from: int) -> Seq<Seq<char>>
    decreases s.len() - from,
{
    let start = run_end(s, from, true);
    let end = run_end(s, start, false);
    if 0 <= from <= start < end <= s.len() {
        seq![s.subrange(start, end)] + fields_from(s, end)
    } else {
        Seq::empty()
    }
}

/// The whitespace-separated fields of `s`.
pub open spec fn fields(s: Seq<char>) -> Seq<Seq<char>> {
    fields_from(s, 0)
}

/// The first field of a text, if it has one, is not empty.
pub proof fn lemma_first_field(s: Seq<char>)
    requires
        fields(s).len() > 0,
    ensures
        fields(s)[0].len() > 0,
{
}

/// Where the line that starts at `from` ends: at the next line feed, or at
/// the end of the text.
pub open spec fn line_end(s: Seq<char>, from: int) -> int
    decreases s.len() - from,
{
    if 0 <= from < s.len() && s[from] != '\n' {
        line_end(s, from + 1)
    } else {
        from
    }
}

/// The lines of `s` that start at or after `from`. Each line feed ends a
/// line; what follows the last line feed is a line only if it is not empty.
pub open spec fn lines_from(s: Seq<char>, from: int) -> Seq<Seq<char>>
    decreases s.len() - from,
{
    let end = line_end(s, from);
    if 0 <= from <= end < s.len() {
        seq![s.subrange(from, end)] + lines_from(s, end + 1)
    } else if 0 <= from < s.len() {
        seq![s.subrange(from, s.len() as int)]
    } else {
        Seq::empty()
    }
}

/// The lines of `s`, without their line feeds.
pub open spec fn lines(s: Seq<char>) -> Seq<Seq<char>> {
    lines_from(s, 0)
}

/// The texts that a vector of strings holds.
pub open spec fn texts(v: Seq<String>) -> Seq<Seq<char>> {
    v.map_values(|s: String| s@)
}

/// The texts that a vector of character vectors holds.
pub open spec fn rows(v: Seq<Vec<char>>) -> Seq<Seq<char>> {
    v.map_values(|r: Vec<char>| r@)
}

/// Whether `c` is ASCII whitespace.
pub fn is_blank_char(c: char) -> (b: bool)
    ensures
        b == is_blank(c),
{
    c == ' ' || c == '\t' || c == '\n' || c == '\x0C' || c == '\r'
}

/// The end of the run that starts at `from`.
fn scan_run(chars: &Vec<char>, from: usize, blank: bool) -> (end: usize)
    requires
        from <= chars.len(),
    ensures
        end == run_end(chars@, from as int, blank),
        from <= end <= chars.len(),
{
    let mut at: usize = from;
    while at < chars.len() && is_blank_char(chars[at]) == blank
        invariant
            from <= at <= chars.len(),
            run_end(chars@, from as int, blank) == run_end(chars@, at as int, blank),
        decreases chars.len() - at,
    {
        at += 1;
    }
    at
}

/// Cuts a line into its whitespace-separated fields.
pub fn split_fields(line: &Vec<char>) -> (found: Vec<String>)
    ensures
        texts(found@) == fields(line@),
{
    let mut found: Vec<String> = Vec::new();
    let mut at: usize = 0;
    assert(texts(found@) =~= Seq::<Seq<char>>::empty());
    loop
        invariant
            at <= line.len(),
            texts(found@) + fields_from(line@, at as int) == fields(line@),
        ensures
            texts(found@) == fields(line@),
        decreases line.len() - at,
    {
        let start = scan_run(line, at, true);
        let end = scan_run(line, start, false);
        if start == end {
            assert(fields_from(line@, at as int) =~= Seq::<Seq<char>>::empty());
            assert(texts(found@) + Seq::<Seq<char>>::empty() =~= texts(found@));
            break;
        }
        let field = string_of(line, start, end);
        proof {
            let before = texts(found@);
            let rest = fields_from(line@, end as int);
            assert(texts(found@.push(field)) =~= before.push(field@));
            assert(before.push(field@) + rest =~= before + (seq![field@] + rest));
        }
        found.push(field);
        at = end;
    }
    found
}

/// The end of the line that starts at `from`.
fn scan_line(chars: &Vec<char>, from: usize) -> (end: usize)
    requires
        from <= chars.len(),
    ensures
        end == line_end(chars@, from as int),
        from <= end <= chars.len(),
{
    let mut at: usize = from;
    while at < chars.len() && chars[at] != '\n'
        invariant
            from <= at <= chars.len(),
            line_end(chars@, from as int) == line_end(chars@, at as int),
        decreases chars.len() - at,
    {
        at += 1;
    }
    at
}

/// The characters `chars[from..to]` in a vector of their own.
fn copy_range(chars: &Vec<char>, from: usize, to: usize) -> (copy: Vec<char>)
    requires
        from <= to <= chars.len(),
    ensures
        copy@ == chars@.subrange(from as int, to as int),
{
    let mut copy: Vec<char> = Vec::new();
    let mut i: usize = from;
    while i < to
        invariant
            from <= i <= to <= chars.len(),
            copy@ == chars@.subrange(from as int, i as int),
        decreases to - i,
    {
        copy.push(chars[i]);
        i += 1;
    }
    copy
}

/// Cuts a text into its lines.
pub fn split_lines(text: &Vec<char>) -> (found: Vec<Vec<char>>)
    ensures
        rows(found@) == lines(text@),
{
    let mut found: Vec<Vec<char>> = Vec::new();
    let mut at: usize = 0;
    assert(rows(found@) =~= Seq::<Seq<char>>::empty());
    while at < text.len()
        invariant
            at <= text.len(),
            rows(found@) + lines_from(text@, at as int) == lines(text@),
        decreases text.len() - at,
    {
        let end = scan_line(text, at);
        let line = copy_range(text, at, end);
        proof {
            let before = rows(found@);
            let rest = if end < text.len() {
                lines_from(text@, end + 1)
            } else {
                Seq::<Seq<char>>::empty()
            };
            assert(rows(found@.push(line)) =~= before.push(line@));
            assert(before.push(line@) + rest =~= before + (seq![line@] + rest));
            assert(seq![line@] + Seq::<Seq<char>>::empty() =~= seq![line@]);
        }
        found.push(line);
        if end == text.len() {
            at = end;
            assert(lines_from(text@, at as int) =~= Seq::<Seq<char>>::empty());
        } else {
            at = end + 1;
        }
    }
    assert(lines_from(text@, at as int) =~= Seq::<Seq<char>>::empty());
    assert(rows(found@) + Seq::<Seq<char>>::empty() =~= rows(found@));
    found
}

/// The order of texts: character by character by code point, a proper
/// prefix before the longer text. It is the order of `str` and `String`.
pub open spec fn precedes(a: Seq<char>, b: Seq<char>) -> bool
    decreases a.len(),
{
    if b.len() == 0 {
        false
    } else if a.len() == 0 {
        true
    } else if a[0] == b[0] {
        precedes(a.drop_first(), b.drop_first())
    } else {
        a[0] < b[0]
    }
}

/// No text precedes itself.
pub proof fn lemma_precedes_irreflexive(a: Seq<char>)
    ensures
        !precedes(a, a),
    decreases a.len(),
{
    if a.len() > 0 {
        lemma_precedes_irreflexive(a.drop_first());
    }
}

/// The order is transitive.
pub proof fn lemma_precedes_transitive(a: Seq<char>, b: Seq<char>, c: Seq<char>)
    requires
        precedes(a, b),
        precedes(b, c),
    ensures
        precedes(a, c),
    decreases a.len(),
{
    if a.len() > 0 && a[0] == b[0] && b[0] == c[0] {
        lemma_precedes_transitive(a.drop_first(), b.drop_first(), c.drop_first());
    }
}

/// Of two different texts one precedes the other.
pub proof fn lemma_precedes_total(a: Seq<char>, b: Seq<char>)
    ensures
        a == b || precedes(a, b) || precedes(b, a),
    decreases a.len(),
{
    if a.len() > 0 && b.len() > 0 && a[0] == b[0] {
        lemma_precedes_total(a.drop_first(), b.drop_first());
        if a.drop_first() == b.drop_first() {
            assert(a =~= seq![a[0]] + a.drop_first());
            assert(b =~= seq![b[0]] + b.drop_first());
        }
    } else if a.len() == 0 && b.len() == 0 {
        assert(a =~= b);
    }
}

/// Whether `a` comes before `b` in the order of texts.
pub fn comes_before(a: &str, b: &str) -> (before: bool)
    ensures
        before == precedes(a@, b@),
{
    let x = chars_of(a);
    let y = chars_of(b);
    let mut i: usize = 0;
    assert(x@.skip(0) == x@ && y@.skip(0) == y@);
    while i < x.len() && i < y.len()
        invariant
            x@ == a@,
            y@ == b@,
            i <= x.len(),
            i <= y.len(),
            precedes(a@, b@) == precedes(x@.skip(i as int), y@.skip(i as int)),
        decreases x.len() - i,
    {
        proof {
            assert(x@.skip(i as int).drop_first() == x@.skip(i + 1));
            assert(y@.skip(i as int).drop_first() == y@.skip(i + 1));
            assert(x@.skip(i as int)[0] == x@[i as int]);
            assert(y@.skip(i as int)[0] == y@[i as int]);
        }
        if x[i] != y[i] {
            return x[i] < y[i];
        }
        i += 1;
    }
    i < y.len()
}

} // verus!
