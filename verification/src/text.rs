//! Text handling over sequences of Unicode scalar values.
//!
//! Every function here works on the characters of a string and states its
//! result as a sequence of characters.

use vstd::prelude::*;

verus! {

/// `String::push` appends one character and changes nothing else.
pub assume_specification[ std::string::String::push ](s: &mut std::string::String, c: char)
    ensures
        final(s)@ == old(s)@.push(c),
;

/// The characters of an optional string.
pub open spec fn opt(value: Option<String>) -> Option<Seq<char>> {
    match value {
        Some(text) => Some(text@),
        None => None,
    }
}

/// The characters of an optional string slice.
pub open spec fn opt_ref(value: Option<&str>) -> Option<Seq<char>> {
    match value {
        Some(text) => Some(text@),
        None => None,
    }
}

/// The characters of each string in a list.
pub open spec fn views(list: Seq<String>) -> Seq<Seq<char>> {
    Seq::new(list.len(), |i: int| list[i]@)
}

/// Whether a list holds a string with the given characters.
pub open spec fn lists(list: Seq<String>, text: Seq<char>) -> bool {
    exists|i: int| 0 <= i < list.len() && #[trigger] list[i]@ == text
}

/// Whether no text stands in a list twice.
pub open spec fn unique(list: Seq<String>) -> bool {
    forall|i: int, j: int|
        #![trigger list[i], list[j]]
        0 <= i < j < list.len() ==> list[i]@ != list[j]@
}

pub proof fn lemma_views_push(list: Seq<String>, item: String)
    ensures
        views(list.push(item)) == views(list).push(item@),
{
    assert(views(list.push(item)) =~= views(list).push(item@));
}

/// A list with one entry more holds what it held and that entry.
pub proof fn lemma_lists_push(list: Seq<String>, item: String, text: Seq<char>)
    ensures
        lists(list.push(item), text) <==> lists(list, text) || text == item@,
{
    let more = list.push(item);
    if lists(list, text) {
        let i = choose|i: int| 0 <= i < list.len() && #[trigger] list[i]@ == text;
        assert(more[i]@ == text);
    }
    if text == item@ {
        assert(more[list.len() as int]@ == text);
    }
    if lists(more, text) {
        let i = choose|i: int| 0 <= i < more.len() && #[trigger] more[i]@ == text;
        if i < list.len() {
            assert(list[i]@ == text);
        }
    }
}

/// The characters of a string, in order.
pub fn chars(s: &str) -> (out: Vec<char>)
    ensures
        out@ == s@,
{
    let mut out: Vec<char> = Vec::new();
    for c in it: s.chars()
        invariant
            out@ == it.seq().take(it.index()),
            it.seq() == s@,
    {
        out.push(c);
    }
    out
}

/// The string that the characters in `from..to` spell.
pub fn piece(chars: &Vec<char>, from: usize, to: usize) -> (out: String)
    requires
        from <= to <= chars.len(),
    ensures
        out@ == chars@.subrange(from as int, to as int),
{
    let mut out = String::new();
    let mut i: usize = from;
    while i < to
        invariant
            from <= i <= to <= chars.len(),
            out@ == chars@.subrange(from as int, i as int),
        decreases to - i,
    {
        out.push(chars[i]);
        i += 1;
        assert(out@ =~= chars@.subrange(from as int, i as int));
    }
    out
}

/// An optional string as an optional string slice.
pub fn as_deref(value: &Option<String>) -> (out: Option<&str>)
    ensures
        opt_ref(out) == opt(*value),
{
    match value {
        Some(text) => Some(text.as_str()),
        None => None,
    }
}

/// Whether two strings hold the same characters.
pub fn same(a: &str, b: &str) -> (r: bool)
    ensures
        r == (a@ == b@),
{
    let x = chars(a);
    let y = chars(b);
    if x.len() != y.len() {
        return false;
    }
    let mut i: usize = 0;
    while i < x.len()
        invariant
            i <= x.len() == y.len(),
            x@ == a@,
            y@ == b@,
            forall|k: int| 0 <= k < i ==> x@[k] == y@[k],
        decreases x.len() - i,
    {
        if x[i] != y[i] {
            return false;
        }
        i += 1;
    }
    assert(x@ =~= y@);
    true
}

/// Whether an optional string is present and holds the given characters.
pub fn is_text(value: Option<&str>, wanted: &str) -> (r: bool)
    ensures
        r == (opt_ref(value) == Some(wanted@)),
{
    match value {
        Some(text) => same(text, wanted),
        None => false,
    }
}

/// Whether two optional strings are both absent or hold the same characters.
pub fn same_opt(a: &Option<String>, b: &Option<String>) -> (r: bool)
    ensures
        r == (opt(*a) == opt(*b)),
{
    match (a, b) {
        (Some(x), Some(y)) => same(x.as_str(), y.as_str()),
        (None, None) => true,
        _ => false,
    }
}

/// Whether a list holds a string.
pub fn contains(list: &Vec<String>, wanted: &str) -> (r: bool)
    ensures
        r == lists(list@, wanted@),
{
    let mut i: usize = 0;
    while i < list.len()
        invariant
            i <= list.len(),
            forall|k: int| 0 <= k < i ==> #[trigger] list@[k]@ != wanted@,
        decreases list.len() - i,
    {
        if same(list[i].as_str(), wanted) {
            return true;
        }
        i += 1;
    }
    false
}

/// The pieces of `parts` one after the other, with `sep` between neighbours.
pub open spec fn joined(parts: Seq<Seq<char>>, sep: Seq<char>) -> Seq<char>
    decreases parts.len(),
{
    if parts.len() == 0 {
        Seq::empty()
    } else if parts.len() == 1 {
        parts[0]
    } else {
        joined(parts.drop_last(), sep) + sep + parts.last()
    }
}

/// Joins a list of strings with a separator.
pub fn join(parts: &Vec<String>, sep: &str) -> (out: String)
    ensures
        out@ == joined(views(parts@), sep@),
{
    let mut out = String::new();
    let mut i: usize = 0;
    while i < parts.len()
        invariant
            i <= parts.len(),
            out@ == joined(views(parts@).take(i as int), sep@),
        decreases parts.len() - i,
    {
        let ghost before = views(parts@).take(i as int);
        let ghost after = views(parts@).take(i + 1);
        assert(after.drop_last() =~= before);
        assert(after.last() == parts@[i as int]@);
        if i > 0 {
            out.append(sep);
        }
        out.append(parts[i].as_str());
        i += 1;
        assert(out@ =~= joined(after, sep@));
    }
    assert(views(parts@).take(parts.len() as int) =~= views(parts@));
    out
}

/// Whether `prefix` begins `text`.
pub open spec fn begins(text: Seq<char>, prefix: Seq<char>) -> bool {
    prefix.len() <= text.len() && text.take(prefix.len() as int) == prefix
}

/// Whether a string starts with a prefix.
pub fn starts_with(text: &str, prefix: &str) -> (r: bool)
    ensures
        r == begins(text@, prefix@),
{
    let t = chars(text);
    let p = chars(prefix);
    if p.len() > t.len() {
        return false;
    }
    let mut i: usize = 0;
    while i < p.len()
        invariant
            i <= p.len() <= t.len(),
            t@ == text@,
            p@ == prefix@,
            forall|k: int| 0 <= k < i ==> t@[k] == p@[k],
        decreases p.len() - i,
    {
        if t[i] != p[i] {
            assert(text@.take(prefix@.len() as int)[i as int] != prefix@[i as int]);
            return false;
        }
        i += 1;
    }
    assert(text@.take(prefix@.len() as int) =~= prefix@);
    true
}

/// Whether `part` occurs somewhere in `text`.
pub open spec fn occurs(text: Seq<char>, part: Seq<char>) -> bool {
    exists|at: int| 0 <= at <= text.len() && #[trigger] begins(text.skip(at), part)
}

/// Whether a string contains another one.
pub fn has_part(text: &str, part: &str) -> (r: bool)
    ensures
        r == occurs(text@, part@),
{
    let t = chars(text);
    let mut at: usize = 0;
    loop
        invariant
            at <= t.len(),
            t@ == text@,
            forall|k: int| 0 <= k < at ==> !#[trigger] begins(text@.skip(k), part@),
        decreases t.len() - at,
    {
        let rest = piece(&t, at, t.len());
        assert(rest@ =~= text@.skip(at as int));
        if starts_with(rest.as_str(), part) {
            return true;
        }
        if at == t.len() {
            return false;
        }
        at += 1;
    }
}

/// Whether a string contains a character.
pub fn has_char(text: &str, wanted: char) -> (r: bool)
    ensures
        r == text@.contains(wanted),
{
    let t = chars(text);
    let mut i: usize = 0;
    while i < t.len()
        invariant
            i <= t.len(),
            t@ == text@,
            forall|k: int| 0 <= k < i ==> t@[k] != wanted,
        decreases t.len() - i,
    {
        if t[i] == wanted {
            return true;
        }
        i += 1;
    }
    false
}

/// The part of `text` before the first `mark`; all of it where there is none.
pub open spec fn before(text: Seq<char>, mark: char) -> Seq<char>
    decreases text.len(),
{
    if text.len() == 0 || text[0] == mark {
        Seq::empty()
    } else {
        seq![text[0]] + before(text.skip(1), mark)
    }
}

/// The part of `text` behind the first `mark`, where there is one.
pub open spec fn behind(text: Seq<char>, mark: char) -> Option<Seq<char>>
    decreases text.len(),
{
    if text.len() == 0 {
        None
    } else if text[0] == mark {
        Some(text.skip(1))
    } else {
        behind(text.skip(1), mark)
    }
}

/// Cuts a string at the first occurrence of a character.
pub fn cut(text: &str, mark: char) -> (out: (String, Option<String>))
    ensures
        out.0@ == before(text@, mark),
        opt(out.1) == behind(text@, mark),
{
    let t = chars(text);
    let mut i: usize = 0;
    assert(text@.skip(0) =~= text@);
    while i < t.len()
        invariant
            i <= t.len(),
            t@ == text@,
            before(text@, mark) == text@.take(i as int) + before(text@.skip(i as int), mark),
            behind(text@, mark) == behind(text@.skip(i as int), mark),
        decreases t.len() - i,
    {
        let ghost rest = text@.skip(i as int);
        assert(rest.skip(1) =~= text@.skip(i + 1));
        if t[i] == mark {
            assert(before(text@, mark) =~= text@.take(i as int));
            return (piece(&t, 0, i), Some(piece(&t, i + 1, t.len())));
        }
        i += 1;
        assert(text@.take(i as int) =~= text@.take(i - 1) + seq![text@[i - 1]]);
        assert(before(text@, mark) =~= text@.take(i as int) + before(text@.skip(i as int), mark));
    }
    assert(before(text@, mark) =~= text@);
    assert(t@.subrange(0, t.len() as int) =~= text@);
    (piece(&t, 0, t.len()), None)
}

/// Unicode `White_Space`.
pub open spec fn is_space(c: char) -> bool {
    let n = c as u32;
    ||| 0x9 <= n <= 0xd
    ||| n == 0x20
    ||| n == 0x85
    ||| n == 0xa0
    ||| n == 0x1680
    ||| 0x2000 <= n <= 0x200a
    ||| n == 0x2028
    ||| n == 0x2029
    ||| n == 0x202f
    ||| n == 0x205f
    ||| n == 0x3000
}

/// Whether a character is white space.
pub fn is_whitespace(c: char) -> (r: bool)
    ensures
        r == is_space(c),
{
    let n: u32 = c as u32;
    (0x9 <= n && n <= 0xd) || n == 0x20 || n == 0x85 || n == 0xa0 || n == 0x1680 || (0x2000 <= n
        && n <= 0x200a) || n == 0x2028 || n == 0x2029 || n == 0x202f || n == 0x205f || n == 0x3000
}

/// Whether any character of `text` is white space.
pub open spec fn spaced(text: Seq<char>) -> bool {
    exists|i: int| 0 <= i < text.len() && is_space(#[trigger] text[i])
}

/// Whether a string contains white space.
pub fn has_whitespace(text: &str) -> (r: bool)
    ensures
        r == spaced(text@),
{
    let t = chars(text);
    let mut i: usize = 0;
    while i < t.len()
        invariant
            i <= t.len(),
            t@ == text@,
            forall|k: int| 0 <= k < i ==> !is_space(#[trigger] t@[k]),
        decreases t.len() - i,
    {
        if is_whitespace(t[i]) {
            return true;
        }
        i += 1;
    }
    false
}

/// `text` without its leading white space.
pub open spec fn trimmed_start(text: Seq<char>) -> Seq<char>
    decreases text.len(),
{
    if text.len() > 0 && is_space(text[0]) {
        trimmed_start(text.skip(1))
    } else {
        text
    }
}

/// `text` without its trailing white space.
pub open spec fn trimmed_end(text: Seq<char>) -> Seq<char>
    decreases text.len(),
{
    if text.len() > 0 && is_space(text.last()) {
        trimmed_end(text.drop_last())
    } else {
        text
    }
}

/// `text` without the white space around it.
pub open spec fn trimmed(text: Seq<char>) -> Seq<char> {
    trimmed_end(trimmed_start(text))
}

/// Removes the white space around a string.
pub fn trim(text: &str) -> (out: String)
    ensures
        out@ == trimmed(text@),
{
    let t = chars(text);
    let mut from: usize = 0;
    assert(text@.skip(0) =~= text@);
    while from < t.len() && is_whitespace(t[from])
        invariant
            from <= t.len(),
            t@ == text@,
            trimmed_start(text@) == trimmed_start(text@.skip(from as int)),
        decreases t.len() - from,
    {
        assert(text@.skip(from as int).skip(1) =~= text@.skip(from + 1));
        from += 1;
    }
    let ghost head = text@.skip(from as int);
    assert(trimmed_start(text@) == head);
    let mut to: usize = t.len();
    assert(text@.subrange(from as int, to as int) =~= head);
    while to > from && is_whitespace(t[to - 1])
        invariant
            from <= to <= t.len(),
            t@ == text@,
            head == text@.skip(from as int),
            trimmed_end(head) == trimmed_end(text@.subrange(from as int, to as int)),
        decreases to,
    {
        assert(text@.subrange(from as int, to as int).drop_last() =~= text@.subrange(
            from as int,
            to - 1,
        ));
        to -= 1;
    }
    assert(trimmed_end(head) == text@.subrange(from as int, to as int));
    piece(&t, from, to)
}

/// How many characters `text` holds before its first white space.
pub open spec fn word_len(text: Seq<char>) -> nat
    decreases text.len(),
{
    if text.len() == 0 || is_space(text[0]) {
        0
    } else {
        1 + word_len(text.skip(1))
    }
}

pub proof fn lemma_word_len(text: Seq<char>)
    ensures
        word_len(text) <= text.len(),
    decreases text.len(),
{
    if text.len() > 0 && !is_space(text[0]) {
        lemma_word_len(text.skip(1));
    }
}

/// The maximal runs of characters that are not white space, in order.
pub open spec fn words(text: Seq<char>) -> Seq<Seq<char>>
    decreases text.len(),
{
    if text.len() == 0 {
        Seq::empty()
    } else if is_space(text[0]) {
        words(text.skip(1))
    } else {
        proof {
            lemma_word_len(text);
        }
        seq![text.take(word_len(text) as int)] + words(text.skip(word_len(text) as int))
    }
}

/// Splits a string at white space.
pub fn split_whitespace(text: &str) -> (out: Vec<String>)
    ensures
        views(out@) == words(text@),
{
    let t = chars(text);
    let mut out: Vec<String> = Vec::new();
    let mut i: usize = 0;
    assert(text@.skip(0) =~= text@);
    assert(views(out@) + words(text@) =~= words(text@));
    while i < t.len()
        invariant
            i <= t.len(),
            t@ == text@,
            words(text@) == views(out@) + words(text@.skip(i as int)),
        decreases t.len() - i,
    {
        let ghost rest = text@.skip(i as int);
        if is_whitespace(t[i]) {
            assert(rest.skip(1) =~= text@.skip(i + 1));
            i += 1;
        } else {
            let start: usize = i;
            assert(rest.skip(0) =~= rest);
            while i < t.len() && !is_whitespace(t[i])
                invariant
                    start <= i <= t.len(),
                    t@ == text@,
                    rest == text@.skip(start as int),
                    word_len(rest) == (i - start) + word_len(rest.skip(i - start)),
                decreases t.len() - i,
            {
                assert(rest.skip(i - start).skip(1) =~= rest.skip(i + 1 - start));
                i += 1;
            }
            proof {
                lemma_word_len(rest);
            }
            assert(word_len(rest) == i - start);
            let word = piece(&t, start, i);
            assert(word@ =~= rest.take(i - start));
            assert(rest.skip(i - start) =~= text@.skip(i as int));
            proof {
                lemma_views_push(out@, word);
            }
            let ghost done = views(out@);
            out.push(word);
            assert(done + (seq![word@] + words(text@.skip(i as int))) =~= done.push(word@) + words(
                text@.skip(i as int),
            ));
        }
    }
    assert(words(text@) =~= views(out@));
    out
}

/// A line without the carriage return that a line feed followed.
pub open spec fn chomped(line: Seq<char>) -> Seq<char> {
    if line.len() > 0 && line.last() == '\r' {
        line.drop_last()
    } else {
        line
    }
}

/// The lines of `text`: a line feed ends a line, a carriage return before it
/// belongs to the ending, and the last line needs no ending.
pub open spec fn lines_of(text: Seq<char>) -> Seq<Seq<char>>
    decreases text.len(),
{
    match behind(text, '\n') {
        Some(rest) => {
            proof {
                lemma_behind(text, '\n');
            }
            seq![chomped(before(text, '\n'))] + lines_of(rest)
        },
        None => if text.len() == 0 {
            Seq::empty()
        } else {
            seq![text]
        },
    }
}

pub proof fn lemma_behind(text: Seq<char>, mark: char)
    ensures
        behind(text, mark) is Some ==> behind(text, mark)->0.len() < text.len(),
        behind(text, mark) is None ==> before(text, mark) == text,
    decreases text.len(),
{
    if text.len() > 0 && text[0] != mark {
        lemma_behind(text.skip(1), mark);
        assert(behind(text, mark) is None ==> before(text, mark) =~= text);
    } else if text.len() == 0 {
        assert(before(text, mark) =~= text);
    }
}

/// Splits a string into lines.
pub fn lines(text: &str) -> (out: Vec<String>)
    ensures
        views(out@) == lines_of(text@),
{
    let mut out: Vec<String> = Vec::new();
    let mut rest: String = text.to_owned();
    assert(views(out@) + lines_of(text@) =~= lines_of(text@));
    loop
        invariant
            lines_of(text@) == views(out@) + lines_of(rest@),
        decreases rest@.len(),
    {
        let (head, tail) = cut(rest.as_str(), '\n');
        proof {
            lemma_behind(rest@, '\n');
        }
        let ghost done = views(out@);
        match tail {
            Some(tail) => {
                let line = chomp(head);
                proof {
                    lemma_views_push(out@, line);
                }
                out.push(line);
                assert(done + (seq![line@] + lines_of(tail@)) =~= done.push(line@) + lines_of(
                    tail@,
                ));
                rest = tail;
            },
            None => {
                if !rest.as_str().is_empty() {
                    proof {
                        lemma_views_push(out@, rest);
                    }
                    assert(done + seq![rest@] =~= done.push(rest@));
                    out.push(rest);
                } else {
                    assert(done + Seq::<Seq<char>>::empty() =~= done);
                }
                return out;
            },
        }
    }
}

fn chomp(line: String) -> (out: String)
    ensures
        out@ == chomped(line@),
{
    let t = chars(line.as_str());
    if t.len() > 0 && t[t.len() - 1] == '\r' {
        let out = piece(&t, 0, t.len() - 1);
        assert(out@ =~= line@.drop_last());
        out
    } else {
        line
    }
}

/// The ASCII lower case of a character; other characters stay.
pub open spec fn lower(c: char) -> char {
    if 'A' <= c <= 'Z' {
        (c as u32 + 32) as char
    } else {
        c
    }
}

/// Whether two texts differ in ASCII letter case at most.
pub open spec fn same_letters(a: Seq<char>, b: Seq<char>) -> bool {
    a.len() == b.len() && forall|i: int|
        0 <= i < a.len() ==> lower(#[trigger] a[i]) == lower(b[i])
}

fn lower_code(c: char) -> (n: u32)
    ensures
        n == lower(c) as u32,
{
    let n: u32 = c as u32;
    if 65 <= n && n <= 90 {
        n + 32
    } else {
        n
    }
}

/// Compares two strings without regard to ASCII letter case.
pub fn eq_ignore_ascii_case(a: &str, b: &str) -> (r: bool)
    ensures
        r == same_letters(a@, b@),
{
    let x = chars(a);
    let y = chars(b);
    if x.len() != y.len() {
        return false;
    }
    let mut i: usize = 0;
    while i < x.len()
        invariant
            i <= x.len() == y.len(),
            x@ == a@,
            y@ == b@,
            forall|k: int| 0 <= k < i ==> lower(#[trigger] x@[k]) == lower(y@[k]),
        decreases x.len() - i,
    {
        if lower_code(x[i]) != lower_code(y[i]) {
            assert(lower(a@[i as int]) != lower(b@[i as int]));
            return false;
        }
        i += 1;
    }
    true
}

/// `text` without any leading repetitions of `prefix`.
pub open spec fn stripped(text: Seq<char>, prefix: Seq<char>) -> Seq<char>
    decreases text.len(),
{
    if prefix.len() > 0 && begins(text, prefix) {
        stripped(text.skip(prefix.len() as int), prefix)
    } else {
        text
    }
}

/// Removes a prefix from a string as often as it occurs there.
pub fn trim_start_matches(text: &str, prefix: &str) -> (out: String)
    ensures
        out@ == stripped(text@, prefix@),
{
    let width: usize = chars(prefix).len();
    let mut rest: String = text.to_owned();
    while width > 0 && starts_with(rest.as_str(), prefix)
        invariant
            width == prefix@.len(),
            stripped(text@, prefix@) == stripped(rest@, prefix@),
        decreases rest@.len(),
    {
        let t = chars(rest.as_str());
        let tail = piece(&t, width, t.len());
        assert(tail@ =~= rest@.skip(width as int));
        rest = tail;
    }
    rest
}

/// Texts that differ in letter case at most are as long as each other and
/// agree at every place, but for ASCII letters, which may be capital in one and
/// small in the other.
pub proof fn law_letter_case(a: Seq<char>, b: Seq<char>)
    ensures
        same_letters(a, b) <==> a.len() == b.len() && forall|i: int|
            #![trigger a[i]]
            0 <= i < a.len() ==> are_letters_of_one_kind(a[i], b[i]),
        same_letters(a, a),
        same_letters(a, b) <==> same_letters(b, a),
{
    assert forall|i: int| 0 <= i < a.len() && i < b.len() implies (lower(#[trigger] a[i]) == lower(
        b[i],
    ) <==> are_letters_of_one_kind(a[i], b[i])) by {
        lemma_lower(a[i], b[i]);
    }
    if same_letters(a, b) {
        assert forall|i: int| 0 <= i < b.len() implies lower(#[trigger] b[i]) == lower(a[i]) by {
            assert(lower(a[i]) == lower(b[i]));
        }
    }
    if same_letters(b, a) {
        assert forall|i: int| 0 <= i < a.len() implies lower(#[trigger] a[i]) == lower(b[i]) by {
            assert(lower(b[i]) == lower(a[i]));
        }
    }
}

/// Whether two characters are the same, or one ASCII letter capital and small.
pub open spec fn are_letters_of_one_kind(a: char, b: char) -> bool {
    ||| a == b
    ||| 'A' <= a <= 'Z' && b as int == a as int + 32
    ||| 'A' <= b <= 'Z' && a as int == b as int + 32
}

proof fn lemma_lower(a: char, b: char)
    ensures
        lower(a) == lower(b) <==> are_letters_of_one_kind(a, b),
{
    assert('A' <= a <= 'Z' ==> lower(a) as int == a as int + 32);
    assert('A' <= b <= 'Z' ==> lower(b) as int == b as int + 32);
}

/// A comparison without regard to letter case, of texts that may be absent and
/// of lists does what it says.
pub proof fn law_comparisons(
    a: &str,
    b: &str,
    alike: bool,
    equal: bool,
    list: &Vec<String>,
    listed: bool,
)
    requires
        call_ensures(eq_ignore_ascii_case, (a, b), alike),
        call_ensures(same, (a, b), equal),
        call_ensures(contains, (list, a), listed),
    ensures
        equal <==> a@ == b@,
        equal ==> alike,
        alike <==> same_letters(a@, b@),
        listed <==> exists|i: int| 0 <= i < list@.len() && (#[trigger] list@[i])@ == a@,
{
}

/// White space around a text is removed, and nothing else: what stays is a
/// stretch of the text that neither begins nor ends with white space, and all
/// around it is white space.
pub proof fn law_trimming(text: Seq<char>) -> (at: (int, int))
    ensures
        0 <= at.0 <= at.1 <= text.len(),
        trimmed(text) == text.subrange(at.0, at.1),
        forall|i: int| 0 <= i < at.0 ==> is_space(#[trigger] text[i]),
        forall|i: int| at.1 <= i < text.len() ==> is_space(#[trigger] text[i]),
        at.0 < at.1 ==> !is_space(text[at.0]) && !is_space(text[at.1 - 1]),
{
    let from = lemma_trim_start(text);
    let head = text.skip(from);
    let to = lemma_trim_end(head);
    assert(trimmed(text) =~= text.subrange(from, from + to));
    assert forall|i: int| from + to <= i < text.len() implies is_space(#[trigger] text[i]) by {
        assert(head[i - from] == text[i]);
    }
    if to > 0 {
        assert(head[0] == text[from]);
        assert(head[to - 1] == text[from + to - 1]);
        assert(!is_space(head[0]));
    }
    (from, from + to)
}

proof fn lemma_trim_start(text: Seq<char>) -> (from: int)
    ensures
        0 <= from <= text.len(),
        trimmed_start(text) == text.skip(from),
        forall|i: int| 0 <= i < from ==> is_space(#[trigger] text[i]),
        from < text.len() ==> !is_space(text[from]),
    decreases text.len(),
{
    if text.len() > 0 && is_space(text[0]) {
        let rest = text.skip(1);
        let from = lemma_trim_start(rest);
        assert(rest.skip(from) =~= text.skip(from + 1));
        assert forall|i: int| 0 <= i < from + 1 implies is_space(#[trigger] text[i]) by {
            if i > 0 {
                assert(rest[i - 1] == text[i]);
            }
        }
        if from + 1 < text.len() {
            assert(rest[from] == text[from + 1]);
        }
        from + 1
    } else {
        assert(text.skip(0) =~= text);
        0
    }
}

proof fn lemma_trim_end(text: Seq<char>) -> (to: int)
    ensures
        0 <= to <= text.len(),
        trimmed_end(text) == text.take(to),
        forall|i: int| to <= i < text.len() ==> is_space(#[trigger] text[i]),
        to > 0 ==> !is_space(text[to - 1]),
    decreases text.len(),
{
    if text.len() > 0 && is_space(text.last()) {
        let rest = text.drop_last();
        let to = lemma_trim_end(rest);
        assert(rest.take(to) =~= text.take(to));
        assert forall|i: int| to <= i < text.len() implies is_space(#[trigger] text[i]) by {
            if i < rest.len() {
                assert(rest[i] == text[i]);
            }
        }
        if to > 0 {
            assert(rest[to - 1] == text[to - 1]);
        }
        to
    } else {
        assert(text.take(text.len() as int) =~= text);
        text.len() as int
    }
}

/// The usual white space counts as such, and nothing that is printed in ASCII
/// does.
pub proof fn law_white_space(c: char)
    ensures
        is_space(' ') && is_space('\n') && is_space('\t') && is_space('\r'),
        '!' <= c <= '~' ==> !is_space(c),
{
}

/// A text without white space is one word, and white space parts the words
/// before it from those behind it.
pub proof fn law_words(left: Seq<char>, space: char, right: Seq<char>)
    requires
        is_space(space),
    ensures
        words(left + seq![space] + right) == words(left) + words(right),
        left.len() > 0 && !spaced(left) ==> words(left) == seq![left],
        left.len() == 0 ==> words(left).len() == 0,
    decreases left.len(),
{
    let all = left + seq![space] + right;
    if left.len() == 0 {
        assert(all[0] == space);
        assert(all.skip(1) =~= right);
        assert(words(left) + words(right) =~= words(right));
    } else if is_space(left[0]) {
        law_words(left.skip(1), space, right);
        assert(all[0] == left[0]);
        assert(all.skip(1) =~= left.skip(1) + seq![space] + right);
    } else {
        lemma_word_len(left);
        lemma_word_stops(left, space, right);
        let n = word_len(left) as int;
        assert(all[0] == left[0]);
        assert(all.take(n) =~= left.take(n));
        assert(all.skip(n) =~= left.skip(n) + seq![space] + right);
        law_words(left.skip(n), space, right);
        assert(words(all) =~= words(left) + words(right));
        if !spaced(left) {
            lemma_whole_word(left);
            assert(left.take(n) =~= left);
            assert(left.skip(n).len() == 0);
            assert(words(left) =~= seq![left]);
        }
    }
}

proof fn lemma_word_stops(left: Seq<char>, space: char, right: Seq<char>)
    requires
        is_space(space),
    ensures
        word_len(left + seq![space] + right) == word_len(left),
        left.len() > 0 && !is_space(left[0]) ==> word_len(left) > 0,
    decreases left.len(),
{
    let all = left + seq![space] + right;
    if left.len() == 0 {
        assert(all[0] == space);
    } else if !is_space(left[0]) {
        assert(all[0] == left[0]);
        lemma_word_stops(left.skip(1), space, right);
        assert(all.skip(1) =~= left.skip(1) + seq![space] + right);
    } else {
        assert(all[0] == left[0]);
    }
}

proof fn lemma_whole_word(text: Seq<char>)
    requires
        !spaced(text),
    ensures
        word_len(text) == text.len(),
    decreases text.len(),
{
    if text.len() > 0 {
        assert(!is_space(text[0]));
        let rest = text.skip(1);
        assert(!spaced(rest)) by {
            if spaced(rest) {
                let i = choose|i: int| 0 <= i < rest.len() && is_space(#[trigger] rest[i]);
                assert(is_space(text[i + 1]));
            }
        }
        lemma_whole_word(rest);
    }
}

/// A text is cut at the first mark: what comes before has none, and the two
/// parts with the mark between them make the text. Without a mark all of the
/// text comes before.
pub proof fn law_cut_at_the_first_mark(text: Seq<char>, mark: char)
    ensures
        !before(text, mark).contains(mark),
        behind(text, mark) is Some <==> text.contains(mark),
        behind(text, mark) is Some ==> text == before(text, mark) + seq![mark] + behind(
            text,
            mark,
        )->0,
        behind(text, mark) is None ==> before(text, mark) == text,
    decreases text.len(),
{
    if text.len() > 0 {
        let rest = text.skip(1);
        if text[0] == mark {
            assert(text =~= before(text, mark) + seq![mark] + rest);
            assert(text.contains(text[0]));
        } else {
            law_cut_at_the_first_mark(rest, mark);
            let head = before(text, mark);
            assert forall|i: int| 0 <= i < head.len() implies #[trigger] head[i] != mark by {
                if i > 0 {
                    assert(head[i] == before(rest, mark)[i - 1]);
                    assert(before(rest, mark).contains(before(rest, mark)[i - 1]));
                }
            }
            if rest.contains(mark) {
                let i = choose|i: int| 0 <= i < rest.len() && rest[i] == mark;
                assert(text[i + 1] == mark);
            }
            if text.contains(mark) {
                let i = choose|i: int| 0 <= i < text.len() && text[i] == mark;
                assert(rest[i - 1] == mark);
            }
            if behind(text, mark) is Some {
                let tail = behind(rest, mark)->0;
                assert(text =~= seq![text[0]] + rest);
                assert(head + seq![mark] + tail =~= seq![text[0]] + (before(rest, mark) + seq![mark]
                    + tail));
            } else {
                assert(head =~= text);
            }
        }
    } else {
        assert(before(text, mark) =~= text);
    }
}

/// A line feed ends a line, and a carriage return before it belongs to the
/// ending; what follows is split on its own. The last line needs no ending.
pub proof fn law_lines(line: Seq<char>, rest: Seq<char>)
    requires
        !line.contains('\n'),
    ensures
        line.len() > 0 ==> lines_of(line) == seq![line],
        lines_of(Seq::<char>::empty()).len() == 0,
        (line.len() == 0 || line.last() != '\r') ==> lines_of(line + seq!['\n'] + rest)
            == seq![line] + lines_of(rest),
        lines_of(line + seq!['\r', '\n'] + rest) == seq![line] + lines_of(rest),
{
    law_cut_at_the_first_mark(line, '\n');
    let empty = Seq::<char>::empty();
    assert(behind(empty, '\n') is None);
    lemma_first_mark(line, '\n', rest);
    let more = line.push('\r');
    assert forall|i: int| 0 <= i < more.len() implies #[trigger] more[i] != '\n' by {
        if i < line.len() {
            assert(line.contains(line[i]));
        }
    }
    lemma_first_mark(more, '\n', rest);
    assert(line + seq!['\r', '\n'] + rest =~= more + seq!['\n'] + rest);
    assert(more.drop_last() =~= line);
}

/// A text with a mark behind it is cut at that mark.
pub proof fn lemma_first_mark(head: Seq<char>, mark: char, rest: Seq<char>)
    requires
        !head.contains(mark),
    ensures
        before(head + seq![mark] + rest, mark) == head,
        behind(head + seq![mark] + rest, mark) == Some(rest),
    decreases head.len(),
{
    let all = head + seq![mark] + rest;
    if head.len() == 0 {
        assert(all[0] == mark);
        assert(all.skip(1) =~= rest);
        assert(before(all, mark) =~= head);
    } else {
        assert(head.contains(head[0]));
        let tail = head.skip(1);
        assert forall|i: int| 0 <= i < tail.len() implies #[trigger] tail[i] != mark by {
            assert(head.contains(head[i + 1]));
        }
        lemma_first_mark(tail, mark, rest);
        assert(all[0] == head[0]);
        assert(all.skip(1) =~= tail + seq![mark] + rest);
        assert(before(all, mark) =~= head);
    }
}

/// Joined parts stand one after the other with the separator between any two
/// of them, and nowhere else.
pub proof fn law_joining(parts: Seq<Seq<char>>, part: Seq<char>, sep: Seq<char>)
    ensures
        joined(Seq::empty(), sep).len() == 0,
        joined(seq![part], sep) == part,
        parts.len() > 0 ==> joined(parts.push(part), sep) == joined(parts, sep) + sep + part,
{
    let more = parts.push(part);
    assert(more.drop_last() =~= parts);
    assert(seq![part].len() == 1);
}

/// A text begins with another one exactly where it is that one and something
/// behind it, and has it somewhere exactly where something may stand before it
/// too.
pub proof fn law_beginnings_and_parts(text: Seq<char>, part: Seq<char>)
    ensures
        begins(text, part) <==> exists|rest: Seq<char>| text == #[trigger] (part + rest),
        occurs(text, part) <==> exists|left: Seq<char>, right: Seq<char>|
            text == #[trigger] (left + part + right),
{
    if begins(text, part) {
        let rest = text.skip(part.len() as int);
        assert(text =~= part + rest);
    }
    assert forall|rest: Seq<char>| text == #[trigger] (part + rest) implies begins(text, part) by {
        assert(text.take(part.len() as int) =~= part);
    }
    if occurs(text, part) {
        let at = choose|at: int| 0 <= at <= text.len() && #[trigger] begins(text.skip(at), part);
        let tail = text.skip(at);
        let left = text.take(at);
        let right = tail.skip(part.len() as int);
        assert(tail =~= part + right);
        assert(text =~= left + part + right);
    }
    assert forall|left: Seq<char>, right: Seq<char>| text == #[trigger] (left + part
        + right) implies occurs(text, part) by {
        let at = left.len() as int;
        assert(text.skip(at).take(part.len() as int) =~= part);
        assert(begins(text.skip(at), part));
    }
}

/// A prefix is removed as often as it stands at the front: one more changes
/// nothing, and what stays does not begin with it.
pub proof fn law_prefix_is_removed(text: Seq<char>, prefix: Seq<char>)
    requires
        prefix.len() > 0,
    ensures
        stripped(prefix + text, prefix) == stripped(text, prefix),
        !begins(stripped(text, prefix), prefix),
        !begins(text, prefix) ==> stripped(text, prefix) == text,
    decreases text.len(),
{
    let more = prefix + text;
    assert(more.take(prefix.len() as int) =~= prefix);
    assert(more.skip(prefix.len() as int) =~= text);
    if begins(text, prefix) {
        law_prefix_is_removed(text.skip(prefix.len() as int), prefix);
    }
}

/// A text without white space is left of a line that has it and ends in white
/// space.
pub proof fn lemma_trim_line(text: Seq<char>, tail: Seq<char>)
    requires
        text.len() > 0,
        !spaced(text),
        forall|i: int| 0 <= i < tail.len() ==> is_space(#[trigger] tail[i]),
    ensures
        trimmed(text + tail) == text,
{
    let all = text + tail;
    let at = law_trimming(all);
    assert(all[0] == text[0]);
    assert(!is_space(text[0]));
    assert(at.0 == 0);
    if at.1 < text.len() {
        assert(is_space(all[at.1]));
        assert(all[at.1] == text[at.1]);
    }
    if at.1 > text.len() {
        assert(all[at.1 - 1] == tail[at.1 - 1 - text.len()]);
    }
    assert(all.subrange(0, text.len() as int) =~= text);
}

/// Two texts that are cut alike at the first mark are alike in both parts.
pub proof fn lemma_cut_alike(
    mark: char,
    a: Seq<char>,
    rest: Seq<char>,
    b: Seq<char>,
    other: Seq<char>,
)
    requires
        a + seq![mark] + rest == b + seq![mark] + other,
        !a.contains(mark),
        !b.contains(mark),
    ensures
        a == b,
        rest == other,
{
    lemma_first_mark(a, mark, rest);
    lemma_first_mark(b, mark, other);
}

} // verus!
