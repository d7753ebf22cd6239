//! Text as sequences of characters: the handful of string operations the rest
//! of the crate is written with, each with its exact meaning.
use vstd::prelude::*;

verus! {

/// Appends one character.
pub assume_specification[ String::push ](s: &mut String, c: char)
    ensures
        final(s)@ == old(s)@.push(c),
;

/// The characters of a string, in order.
pub fn to_chars(s: &str) -> (v: Vec<char>)
    ensures
        v@ == s@,
{
    let mut v: Vec<char> = Vec::new();
    for c in it: s.chars()
        invariant
            it.seq() == s@,
            v@ == s@.take(it.index() as int),
    {
        proof {
            assert(s@.take(it.index() as int + 1) == s@.take(it.index() as int).push(c));
        }
        v.push(c);
    }
    proof {
        assert(s@.take(s@.len() as int) == s@);
    }
    v
}

/// The string made of the given characters.
pub fn from_chars(v: &Vec<char>) -> (s: String)
    ensures
        s@ == v@,
{
    let mut s: String = String::new();
    for i in 0..v.len()
        invariant
            s@ == v@.take(i as int),
    {
        proof {
            assert(v@.take(i as int + 1) == v@.take(i as int).push(v@[i as int]));
        }
        s.push(v[i]);
    }
    proof {
        assert(v@.take(v@.len() as int) == v@);
    }
    s
}

/// Appends a text.
pub fn push_str(s: &mut String, t: &str)
    ensures
        final(s)@ == old(s)@ + t@,
{
    let ghost start = s@;
    proof {
        assert(start + t@.take(0) == start);
    }
    for c in it: t.chars()
        invariant
            it.seq() == t@,
            s@ == start + t@.take(it.index() as int),
    {
        s.push(c);
        proof {
            assert(s@ == start + t@.take(it.index() as int + 1));
        }
    }
    proof {
        assert(t@.take(t@.len() as int) == t@);
    }
}

/// Whether two strings hold the same characters.
pub fn same(a: &str, b: &str) -> (r: bool)
    ensures
        r == (a@ == b@),
{
    a.to_owned() == b.to_owned()
}

/// Whether two byte strings are the same.
pub fn same_bytes(a: &[u8], b: &[u8]) -> (r: bool)
    ensures
        r == (a@ == b@),
{
    if a.len() != b.len() {
        return false;
    }
    for i in 0..a.len()
        invariant
            a@.len() == b@.len(),
            forall|j: int| 0 <= j < i ==> a@[j] == b@[j],
    {
        if a[i] != b[i] {
            assert(a@[i as int] != b@[i as int]);
            return false;
        }
    }
    assert(a@ =~= b@);
    true
}

/// The views of a sequence of character vectors.
pub open spec fn views(v: Seq<Vec<char>>) -> Seq<Seq<char>> {
    Seq::new(v.len(), |i: int| v[i]@)
}

/// The views of a sequence of strings.
pub open spec fn strings(v: Seq<String>) -> Seq<Seq<char>> {
    Seq::new(v.len(), |i: int| v[i]@)
}

/// The view of a text that may not be there.
pub open spec fn maybe(s: Option<String>) -> Option<Seq<char>> {
    match s {
        Some(s) => Some(s@),
        None => None,
    }
}

/// The views of a sequence of key and value pairs.
pub open spec fn pairs(v: Seq<(String, String)>) -> Seq<(Seq<char>, Seq<char>)> {
    Seq::new(v.len(), |i: int| (v[i].0@, v[i].1@))
}

/// A copy of pairs.
pub fn copy_pairs(v: &Vec<(String, String)>) -> (r: Vec<(String, String)>)
    ensures
        pairs(r@) == pairs(v@),
{
    let mut r: Vec<(String, String)> = Vec::new();
    for i in 0..v.len()
        invariant
            r@.len() == i,
            forall|j: int| 0 <= j < i ==> #[trigger] pairs(r@)[j] == pairs(v@)[j],
    {
        let ghost before = r@;
        r.push((v[i].0.clone(), v[i].1.clone()));
        assert forall|j: int| 0 <= j < i + 1 implies #[trigger] pairs(r@)[j] == pairs(v@)[j] by {
            if j < i {
                assert(pairs(before)[j] == pairs(v@)[j]);
            }
        }
    }
    assert(pairs(r@) =~= pairs(v@));
    r
}

/// A copy of the characters from `from` up to `to`.
pub fn slice(v: &Vec<char>, from: usize, to: usize) -> (r: Vec<char>)
    requires
        from <= to <= v@.len(),
    ensures
        r@ == v@.subrange(from as int, to as int),
{
    let mut r: Vec<char> = Vec::new();
    for i in from..to
        invariant
            from <= i <= to <= v@.len(),
            r@ == v@.subrange(from as int, i as int),
    {
        proof {
            assert(v@.subrange(from as int, i as int + 1) == v@.subrange(
                from as int,
                i as int,
            ).push(v@[i as int]));
        }
        r.push(v[i]);
    }
    r
}

/// Characters with the Unicode `White_Space` property.
pub open spec fn is_space(c: char) -> bool {
    ||| '\u{9}' <= c <= '\u{d}'
    ||| c == '\u{20}'
    ||| c == '\u{85}'
    ||| c == '\u{a0}'
    ||| c == '\u{1680}'
    ||| '\u{2000}' <= c <= '\u{200a}'
    ||| c == '\u{2028}'
    ||| c == '\u{2029}'
    ||| c == '\u{202f}'
    ||| c == '\u{205f}'
    ||| c == '\u{3000}'
}

/// Whether a character is white space.
pub fn is_whitespace(c: char) -> (r: bool)
    ensures
        r == is_space(c),
{
    ('\u{9}' <= c && c <= '\u{d}') || c == '\u{20}' || c == '\u{85}' || c == '\u{a0}' || c
        == '\u{1680}' || ('\u{2000}' <= c && c <= '\u{200a}') || c == '\u{2028}' || c == '\u{2029}'
        || c == '\u{202f}' || c == '\u{205f}' || c == '\u{3000}'
}

/// What is left of `s` once leading white space is gone.
pub open spec fn trim_start(s: Seq<char>) -> Seq<char>
    decreases s.len(),
{
    if s.len() > 0 && is_space(s[0]) {
        trim_start(s.skip(1))
    } else {
        s
    }
}

/// What is left of `s` once trailing white space is gone.
pub open spec fn trim_end(s: Seq<char>) -> Seq<char>
    decreases s.len(),
{
    if s.len() > 0 && is_space(s.last()) {
        trim_end(s.drop_last())
    } else {
        s
    }
}

/// What is left of `s` once white space at both ends is gone.
pub open spec fn trimmed(s: Seq<char>) -> Seq<char> {
    trim_end(trim_start(s))
}

/// `s` without white space at either end.
pub fn trim(v: &Vec<char>) -> (r: Vec<char>)
    ensures
        r@ == trimmed(v@),
{
    let mut from: usize = 0;
    proof {
        assert(v@.skip(0) == v@);
    }
    while from < v.len() && is_whitespace(v[from])
        invariant
            from <= v@.len(),
            trim_start(v@) == trim_start(v@.skip(from as int)),
        decreases v@.len() - from,
    {
        proof {
            assert(v@.skip(from as int).skip(1) == v@.skip(from as int + 1));
        }
        from = from + 1;
    }
    let ghost head = v@.skip(from as int);
    assert(trim_start(v@) == head);
    let mut to: usize = v.len();
    proof {
        assert(head == v@.subrange(from as int, to as int));
    }
    while from < to && is_whitespace(v[to - 1])
        invariant
            from <= to <= v@.len(),
            head == v@.skip(from as int),
            trim_end(head) == trim_end(v@.subrange(from as int, to as int)),
        decreases to,
    {
        proof {
            assert(v@.subrange(from as int, to as int).drop_last() == v@.subrange(
                from as int,
                to as int - 1,
            ));
        }
        to = to - 1;
    }
    slice(v, from, to)
}

/// The position of the first `c` in `s`, or the length of `s`.
pub open spec fn find(s: Seq<char>, c: char) -> int
    decreases s.len(),
{
    if s.len() == 0 || s[0] == c {
        0
    } else {
        1 + find(s.skip(1), c)
    }
}

/// `find` is the least position that holds `c`.
pub proof fn lemma_find(s: Seq<char>, c: char)
    ensures
        0 <= find(s, c) <= s.len(),
        find(s, c) < s.len() ==> s[find(s, c)] == c,
        forall|i: int| 0 <= i < find(s, c) ==> s[i] != c,
    decreases s.len(),
{
    if s.len() > 0 && s[0] != c {
        let rest = s.skip(1);
        lemma_find(rest, c);
        assert forall|i: int| 0 <= i < find(s, c) implies s[i] != c by {
            if i > 0 {
                assert(rest[i - 1] == s[i]);
            }
        }
    }
}

/// A position that holds `c` with none before it is `find`.
pub proof fn lemma_find_is(s: Seq<char>, c: char, i: int)
    requires
        0 <= i <= s.len(),
        i < s.len() ==> s[i] == c,
        forall|j: int| 0 <= j < i ==> s[j] != c,
    ensures
        find(s, c) == i,
{
    lemma_find(s, c);
    let f = find(s, c);
    if f < i {
        assert(s[f] == c);
    }
    if i < f {
        assert(s[i] != c);
    }
}

/// Where the first `c` stands, or the length when there is none.
pub fn position(v: &Vec<char>, c: char) -> (i: usize)
    ensures
        i == find(v@, c),
{
    let mut i: usize = 0;
    while i < v.len() && v[i] != c
        invariant
            i <= v@.len(),
            forall|j: int| 0 <= j < i ==> v@[j] != c,
        decreases v@.len() - i,
    {
        i = i + 1;
    }
    proof {
        lemma_find_is(v@, c, i as int);
    }
    i
}

/// The position of the first white space in `s`, or the length of `s`.
pub open spec fn find_space(s: Seq<char>) -> int
    decreases s.len(),
{
    if s.len() == 0 || is_space(s[0]) {
        0
    } else {
        1 + find_space(s.skip(1))
    }
}

/// `find_space` is the least position that holds white space.
pub proof fn lemma_find_space(s: Seq<char>)
    ensures
        0 <= find_space(s) <= s.len(),
        find_space(s) < s.len() ==> is_space(s[find_space(s)]),
        forall|i: int| 0 <= i < find_space(s) ==> !is_space(s[i]),
    decreases s.len(),
{
    if s.len() > 0 && !is_space(s[0]) {
        let rest = s.skip(1);
        lemma_find_space(rest);
        assert forall|i: int| 0 <= i < find_space(s) implies !is_space(s[i]) by {
            if i > 0 {
                assert(rest[i - 1] == s[i]);
            }
        }
    }
}

/// Where the first white space at or after `from` stands, or the length.
pub fn space_from(v: &Vec<char>, from: usize) -> (i: usize)
    requires
        from <= v@.len(),
    ensures
        i == from + find_space(v@.skip(from as int)),
{
    let mut i: usize = from;
    proof {
        lemma_find_space(v@.skip(from as int));
    }
    while i < v.len() && !is_whitespace(v[i])
        invariant
            from <= i <= v@.len(),
            forall|j: int| from <= j < i ==> !is_space(#[trigger] v@[j]),
        decreases v@.len() - i,
    {
        i = i + 1;
    }
    proof {
        let s = v@.skip(from as int);
        let f = find_space(s);
        lemma_find_space(s);
        if f < i - from {
            assert(v@[from + f] == s[f]);
        }
        if i - from < f {
            assert(!is_space(s[i - from]));
            assert(v@[i as int] == s[i - from]);
        }
    }
    i
}

/// `s` without a carriage return at its end.
pub open spec fn without_cr(s: Seq<char>) -> Seq<char> {
    if s.len() > 0 && s.last() == '\r' {
        s.drop_last()
    } else {
        s
    }
}

/// The lines of `s`: line feeds end lines, a carriage return before one belongs
/// to it, and a final line feed opens no empty line.
pub open spec fn lines_of(s: Seq<char>) -> Seq<Seq<char>>
    decreases s.len(),
    via lines_of_decreases
{
    if s.len() == 0 {
        seq![]
    } else if find(s, '\n') < s.len() {
        seq![without_cr(s.take(find(s, '\n')))] + lines_of(s.skip(find(s, '\n') + 1))
    } else {
        seq![s]
    }
}

#[via_fn]
proof fn lines_of_decreases(s: Seq<char>) {
    lemma_find(s, '\n');
}

/// The lines of a text.
pub fn lines(v: &Vec<char>) -> (r: Vec<Vec<char>>)
    ensures
        views(r@) == lines_of(v@),
{
    let mut r: Vec<Vec<char>> = Vec::new();
    let mut at: usize = 0;
    proof {
        assert(v@.skip(0) == v@);
        assert(views(r@) + lines_of(v@) == lines_of(v@));
    }
    while at < v.len()
        invariant
            at <= v@.len(),
            views(r@) + lines_of(v@.skip(at as int)) == lines_of(v@),
        decreases v@.len() - at,
    {
        let ghost rest = v@.skip(at as int);
        let ghost before = r@;
        let mut end: usize = at;
        while end < v.len() && v[end] != '\n'
            invariant
                at <= end <= v@.len(),
                rest == v@.skip(at as int),
                forall|j: int| 0 <= j < end - at ==> rest[j] != '\n',
            decreases v@.len() - end,
        {
            proof {
                assert(rest[end - at] == v@[end as int]);
            }
            end = end + 1;
        }
        proof {
            if end < v@.len() {
                assert(rest[end - at] == v@[end as int]);
            }
            lemma_find_is(rest, '\n', end - at);
        }
        if end < v.len() {
            let stop: usize = if end > at && v[end - 1] == '\r' {
                end - 1
            } else {
                end
            };
            let line = slice(v, at, stop);
            proof {
                let whole = rest.take(end - at);
                if end > at {
                    assert(whole.last() == v@[end - 1]);
                }
                assert(line@ == without_cr(whole));
                assert(rest.skip(end - at + 1) == v@.skip(end + 1));
            }
            r.push(line);
            at = end + 1;
            proof {
                assert(views(r@) == views(before).push(line@));
                assert(views(r@) + lines_of(v@.skip(at as int)) == views(before) + lines_of(rest));
            }
        } else {
            let line = slice(v, at, end);
            r.push(line);
            at = end;
            proof {
                assert(line@ == rest);
                assert(views(r@) == views(before).push(line@));
                assert(lines_of(v@.skip(at as int)) =~= seq![]);
                assert(views(r@) + lines_of(v@.skip(at as int)) == views(before) + lines_of(rest));
            }
        }
    }
    proof {
        assert(lines_of(v@.skip(at as int)) =~= seq![]);
        assert(views(r@) + lines_of(v@.skip(at as int)) == views(r@));
    }
    r
}

/// The maximal runs of characters in `s` that hold no white space.
pub open spec fn words_of(s: Seq<char>) -> Seq<Seq<char>>
    decreases s.len(),
    via words_of_decreases
{
    if s.len() == 0 {
        seq![]
    } else if is_space(s[0]) {
        words_of(s.skip(1))
    } else {
        seq![s.take(find_space(s))] + words_of(s.skip(find_space(s)))
    }
}

#[via_fn]
proof fn words_of_decreases(s: Seq<char>) {
    lemma_find_space(s);
    if s.len() > 0 && !is_space(s[0]) {
        assert(find_space(s) >= 1);
    }
}

/// The words of a text.
pub fn words(v: &Vec<char>) -> (r: Vec<Vec<char>>)
    ensures
        views(r@) == words_of(v@),
{
    let mut r: Vec<Vec<char>> = Vec::new();
    let mut at: usize = 0;
    proof {
        assert(v@.skip(0) == v@);
        assert(views(r@) + words_of(v@) == words_of(v@));
    }
    while at < v.len()
        invariant
            at <= v@.len(),
            views(r@) + words_of(v@.skip(at as int)) == words_of(v@),
        decreases v@.len() - at,
    {
        let ghost rest = v@.skip(at as int);
        let ghost before = r@;
        if is_whitespace(v[at]) {
            proof {
                assert(rest.skip(1) == v@.skip(at + 1));
            }
            at = at + 1;
        } else {
            proof {
                lemma_find_space(rest);
            }
            let end = space_from(v, at);
            let word = slice(v, at, end);
            proof {
                assert(word@ == rest.take(end - at));
                assert(rest.skip(end - at) == v@.skip(end as int));
                assert(find_space(rest) >= 1);
            }
            r.push(word);
            at = end;
            proof {
                assert(views(r@) == views(before).push(word@));
                assert(views(r@) + words_of(v@.skip(at as int)) == views(before) + words_of(rest));
            }
        }
    }
    proof {
        assert(words_of(v@.skip(at as int)) =~= seq![]);
        assert(views(r@) + words_of(v@.skip(at as int)) == views(r@));
    }
    r
}

/// The parts one after another, with `sep` between neighbours.
pub open spec fn joined(parts: Seq<Seq<char>>, sep: char) -> Seq<char>
    decreases parts.len(),
{
    if parts.len() == 0 {
        seq![]
    } else if parts.len() == 1 {
        parts[0]
    } else {
        joined(parts.drop_last(), sep).push(sep) + parts.last()
    }
}

/// A word: not empty, and without white space.
pub open spec fn is_word(w: Seq<char>) -> bool {
    w.len() > 0 && forall|i: int| 0 <= i < w.len() ==> !is_space(#[trigger] w[i])
}

proof fn lemma_words_are_words(s: Seq<char>)
    ensures
        forall|i: int| 0 <= i < words_of(s).len() ==> is_word(#[trigger] words_of(s)[i]),
    decreases s.len(),
{
    lemma_find_space(s);
    if s.len() > 0 {
        if is_space(s[0]) {
            lemma_words_are_words(s.skip(1));
            assert(words_of(s) == words_of(s.skip(1)));
        } else {
            let n = find_space(s);
            lemma_words_are_words(s.skip(n));
            assert forall|i: int| 0 <= i < words_of(s).len() implies is_word(
                #[trigger] words_of(s)[i],
            ) by {
                if i > 0 {
                    assert(words_of(s)[i] == words_of(s.skip(n))[i - 1]);
                }
            }
        }
    }
}

proof fn lemma_find_space_is(s: Seq<char>, n: int)
    requires
        0 <= n <= s.len(),
        n < s.len() ==> is_space(s[n]),
        forall|i: int| 0 <= i < n ==> !is_space(s[i]),
    ensures
        find_space(s) == n,
{
    lemma_find_space(s);
    let f = find_space(s);
    if f < n {
        assert(is_space(s[f]));
    }
    if n < f {
        assert(!is_space(s[n]));
    }
}

proof fn lemma_one_word(w: Seq<char>)
    requires
        is_word(w),
    ensures
        words_of(w) == seq![w],
{
    lemma_find_space_is(w, w.len() as int);
    assert(w.take(w.len() as int) =~= w);
    assert(w.skip(w.len() as int) =~= seq![]);
    assert(words_of(w.skip(w.len() as int)) =~= seq![]);
}

proof fn lemma_word_after(s: Seq<char>, w: Seq<char>)
    requires
        is_word(w),
    ensures
        words_of(s.push(' ') + w) == words_of(s).push(w),
    decreases s.len(),
{
    let longer = s.push(' ') + w;
    if s.len() == 0 {
        assert(longer.skip(1) =~= w);
        lemma_one_word(w);
    } else if is_space(s[0]) {
        assert(longer.skip(1) =~= s.skip(1).push(' ') + w);
        lemma_word_after(s.skip(1), w);
    } else {
        lemma_find_space(s);
        let n = find_space(s);
        lemma_find_space_is(longer, n);
        assert(longer.take(n) =~= s.take(n));
        assert(longer.skip(n) =~= s.skip(n).push(' ') + w);
        lemma_word_after(s.skip(n), w);
        assert(words_of(longer) =~= words_of(s).push(w));
    }
}

proof fn lemma_words_of_joined(parts: Seq<Seq<char>>)
    requires
        forall|i: int| 0 <= i < parts.len() ==> is_word(#[trigger] parts[i]),
    ensures
        words_of(joined(parts, ' ')) == parts,
    decreases parts.len(),
{
    if parts.len() == 0 {
        assert(words_of(joined(parts, ' ')) =~= parts);
    } else if parts.len() == 1 {
        lemma_one_word(parts[0]);
        assert(parts =~= seq![parts[0]]);
    } else {
        let init = parts.drop_last();
        assert forall|i: int| 0 <= i < init.len() implies is_word(#[trigger] init[i]) by {
            assert(init[i] == parts[i]);
        }
        lemma_words_of_joined(init);
        assert(is_word(parts[parts.len() - 1]));
        lemma_word_after(joined(init, ' '), parts.last());
        assert(init.push(parts.last()) =~= parts);
    }
}

/// Words put on one line are the words of that line.
pub proof fn lemma_words_of_line(s: Seq<char>)
    ensures
        words_of(joined(words_of(s), ' ')) == words_of(s),
{
    lemma_words_are_words(s);
    lemma_words_of_joined(words_of(s));
}

/// Appends the characters of `w` to `s`.
pub fn push_chars(s: &mut String, w: &Vec<char>)
    ensures
        final(s)@ == old(s)@ + w@,
{
    let ghost start = s@;
    proof {
        assert(start + w@.take(0) == start);
    }
    for j in 0..w.len()
        invariant
            s@ == start + w@.take(j as int),
    {
        proof {
            assert(w@.take(j as int + 1) == w@.take(j as int).push(w@[j as int]));
        }
        s.push(w[j]);
        proof {
            assert(s@ == start + w@.take(j as int + 1));
        }
    }
    proof {
        assert(w@.take(w@.len() as int) == w@);
    }
}

/// Puts the parts one after another, with `sep` between neighbours.
pub fn join(parts: &Vec<Vec<char>>, sep: char) -> (s: String)
    ensures
        s@ == joined(views(parts@), sep),
{
    let mut s: String = String::new();
    for i in 0..parts.len()
        invariant
            s@ == joined(views(parts@).take(i as int), sep),
    {
        if i > 0 {
            s.push(sep);
        }
        push_chars(&mut s, &parts[i]);
        proof {
            let next = views(parts@).take(i as int + 1);
            assert(next.drop_last() == views(parts@).take(i as int));
            assert(next.last() == parts@[i as int]@);
            if i == 0 {
                assert(s@ == parts@[0]@);
            }
        }
    }
    proof {
        assert(views(parts@).take(parts@.len() as int) == views(parts@));
    }
    s
}

/// The decimal digit of a value below ten.
pub open spec fn digit(d: int) -> char
    recommends
        0 <= d < 10,
{
    (d + 48) as char
}

/// `n` written in decimal, without leading zeros.
pub open spec fn decimal(n: nat) -> Seq<char>
    decreases n,
{
    if n < 10 {
        seq![digit(n as int)]
    } else {
        decimal(n / 10).push(digit((n % 10) as int))
    }
}

/// A number written in decimal.
pub fn number(n: u64) -> (s: String)
    ensures
        s@ == decimal(n as nat),
    decreases n,
{
    let last: u8 = (n % 10) as u8;
    let c: char = (48u8 + last) as char;
    if n < 10 {
        let mut s: String = String::new();
        s.push(c);
        proof {
            assert(s@ =~= decimal(n as nat));
        }
        s
    } else {
        let mut s: String = number(n / 10);
        s.push(c);
        s
    }
}

/// An integer in decimal.
pub open spec fn integer(n: int) -> Seq<char> {
    if n < 0 {
        "-"@ + decimal((-n) as nat)
    } else {
        decimal(n as nat)
    }
}

/// Appends an integer in decimal.
pub fn push_integer(s: &mut String, n: i32)
    ensures
        final(s)@ == old(s)@ + integer(n as int),
{
    if n < 0 {
        push_str(s, "-");
        push_str(s, &number((-(n as i64)) as u64));
        assert(s@ =~= old(s)@ + integer(n as int));
    } else {
        push_str(s, &number(n as u64));
    }
}

/// Whether every character is a decimal digit.
pub open spec fn all_digits(s: Seq<char>) -> bool {
    forall|i: int| 0 <= i < s.len() ==> '0' <= #[trigger] s[i] <= '9'
}

/// The value of a run of decimal digits, most significant first.
pub open spec fn digits_value(s: Seq<char>) -> nat
    decreases s.len(),
{
    if s.len() == 0 {
        0
    } else {
        (digits_value(s.drop_last()) * 10 + (s.last() as int - 48)) as nat
    }
}

/// The unsigned number a text spells: an optional plus sign, then at least one
/// decimal digit and nothing else, not above `max`.
pub open spec fn unsigned(s: Seq<char>, max: nat) -> Option<nat> {
    let body = if s.len() > 0 && s[0] == '+' {
        s.skip(1)
    } else {
        s
    };
    if body.len() > 0 && all_digits(body) && digits_value(body) <= max {
        Some(digits_value(body))
    } else {
        None
    }
}

/// A longer run of digits is worth at least as much.
proof fn lemma_digits_grow(s: Seq<char>, i: int)
    requires
        0 <= i <= s.len(),
        all_digits(s),
    ensures
        digits_value(s.take(i)) <= digits_value(s),
    decreases s.len() - i,
{
    if i < s.len() {
        lemma_digits_grow(s, i + 1);
        assert(s.take(i + 1).drop_last() == s.take(i));
        assert(s.take(i + 1).last() == s[i]);
        assert('0' <= s[i]);
        assert(digits_value(s.take(i + 1)) >= digits_value(s.take(i)));
    } else {
        assert(s.take(i) == s);
    }
}

/// The value of the digits from `from` on, if there are any, nothing else
/// follows, and it does not exceed `max`.
fn digits_from(v: &Vec<char>, from: usize, max: u64) -> (r: Option<u64>)
    requires
        from <= v@.len(),
        max <= i64::MAX as u64 + 1,
    ensures
        match r {
            Some(n) => from < v@.len() && all_digits(v@.skip(from as int)) && n == digits_value(
                v@.skip(from as int),
            ) && n <= max,
            None => from == v@.len() || !all_digits(v@.skip(from as int)) || digits_value(
                v@.skip(from as int),
            ) > max,
        },
{
    let ghost body = v@.skip(from as int);
    if from == v.len() {
        return None;
    }
    let mut n: u64 = 0;
    let mut i: usize = from;
    while i < v.len()
        invariant
            from <= i <= v@.len(),
            body == v@.skip(from as int),
            all_digits(body.take(i - from)),
            n == digits_value(body.take(i - from)),
            n <= max,
            max <= i64::MAX as u64 + 1,
        decreases v@.len() - i,
    {
        let c = v[i];
        proof {
            assert(body[i - from] == c);
        }
        if c < '0' || c > '9' {
            return None;
        }
        let d: u64 = (c as u32 - 48) as u64;
        proof {
            let next = body.take(i - from + 1);
            assert(next.drop_last() == body.take(i - from));
            assert(next.last() == c);
            assert(all_digits(next)) by {
                assert forall|k: int| 0 <= k < next.len() implies '0' <= #[trigger] next[k]
                    <= '9' by {
                    if k < i - from {
                        assert(body.take(i - from)[k] == next[k]);
                    }
                }
            }
            assert(digits_value(next) == n * 10 + d);
            if n * 10 + d > max && all_digits(body) {
                lemma_digits_grow(body, i - from + 1);
            }
        }
        if n > max / 10 {
            return None;
        }
        let tens: u64 = n * 10;
        if d > max - tens {
            return None;
        }
        n = tens + d;
        i = i + 1;
    }
    proof {
        assert(body.take(i - from) == body);
    }
    Some(n)
}

/// Reads an unsigned number of at most `max`.
pub fn parse_unsigned(v: &Vec<char>, max: u64) -> (r: Option<u64>)
    requires
        max <= i64::MAX as u64 + 1,
    ensures
        match r {
            Some(n) => unsigned(v@, max as nat) == Some(n as nat),
            None => unsigned(v@, max as nat) is None,
        },
{
    if v.len() > 0 && v[0] == '+' {
        digits_from(v, 1, max)
    } else {
        proof {
            assert(v@.skip(0) == v@);
        }
        digits_from(v, 0, max)
    }
}

/// The signed number a text spells: an optional sign, then at least one decimal
/// digit and nothing else, in the range of a 64-bit integer.
pub open spec fn signed(s: Seq<char>) -> Option<int> {
    if s.len() > 0 && s[0] == '-' {
        let body = s.skip(1);
        if body.len() > 0 && all_digits(body) && digits_value(body) <= i64::MAX + 1 {
            Some(-(digits_value(body) as int))
        } else {
            None
        }
    } else {
        match unsigned(s, i64::MAX as nat) {
            Some(n) => Some(n as int),
            None => None,
        }
    }
}

/// Reads a signed 64-bit number.
pub fn parse_signed(v: &Vec<char>) -> (r: Option<i64>)
    ensures
        match r {
            Some(n) => signed(v@) == Some(n as int),
            None => signed(v@) is None,
        },
{
    if v.len() > 0 && v[0] == '-' {
        match digits_from(v, 1, 9_223_372_036_854_775_808) {
            Some(n) => {
                if n == 9_223_372_036_854_775_808 {
                    Some(i64::MIN)
                } else {
                    Some(-(n as i64))
                }
            },
            None => None,
        }
    } else {
        match parse_unsigned(v, 9_223_372_036_854_775_807) {
            Some(n) => Some(n as i64),
            None => None,
        }
    }
}

/// Strict lexicographic order by code point, which is also the order of the
/// UTF-8 bytes.
pub open spec fn before(a: Seq<char>, b: Seq<char>) -> bool
    decreases a.len(),
{
    if b.len() == 0 {
        false
    } else if a.len() == 0 {
        true
    } else if a[0] == b[0] {
        before(a.skip(1), b.skip(1))
    } else {
        a[0] < b[0]
    }
}

/// Of two texts exactly one comes first, unless they are the same.
pub proof fn lemma_before_total(a: Seq<char>, b: Seq<char>)
    ensures
        before(a, b) || before(b, a) || a == b,
        !(before(a, b) && before(b, a)),
        a == b ==> !before(a, b),
    decreases a.len(),
{
    if a.len() > 0 && b.len() > 0 {
        lemma_before_total(a.skip(1), b.skip(1));
        if a[0] == b[0] && a.skip(1) == b.skip(1) {
            assert(a =~= seq![a[0]] + a.skip(1));
            assert(b =~= seq![b[0]] + b.skip(1));
        }
    } else if a.len() == 0 && b.len() == 0 {
        assert(a =~= b);
    }
}

/// The order is transitive.
pub proof fn lemma_before_transitive(a: Seq<char>, b: Seq<char>, c: Seq<char>)
    requires
        before(a, b),
        before(b, c),
    ensures
        before(a, c),
    decreases a.len(),
{
    if a.len() > 0 && b.len() > 0 && c.len() > 0 {
        if a[0] == b[0] && b[0] == c[0] {
            lemma_before_transitive(a.skip(1), b.skip(1), c.skip(1));
        }
    }
}

/// Whether `a` comes before `b`.
pub fn is_before(a: &Vec<char>, b: &Vec<char>) -> (r: bool)
    ensures
        r == before(a@, b@),
{
    let mut i: usize = 0;
    proof {
        assert(a@.skip(0) == a@);
        assert(b@.skip(0) == b@);
    }
    while i < a.len() && i < b.len() && a[i] == b[i]
        invariant
            i <= a@.len(),
            i <= b@.len(),
            before(a@, b@) == before(a@.skip(i as int), b@.skip(i as int)),
        decreases a@.len() - i,
    {
        proof {
            assert(a@.skip(i as int).skip(1) == a@.skip(i + 1));
            assert(b@.skip(i as int).skip(1) == b@.skip(i + 1));
        }
        i = i + 1;
    }
    if i >= b.len() {
        false
    } else if i >= a.len() {
        true
    } else {
        proof {
            assert(a@.skip(i as int)[0] == a@[i as int]);
            assert(b@.skip(i as int)[0] == b@[i as int]);
        }
        a[i] < b[i]
    }
}

/// Position `i` ranks ahead of position `j`: its key comes first, or the keys
/// are the same and it stands first.
pub open spec fn ahead(keys: Seq<Seq<char>>, i: int, j: int) -> bool {
    before(keys[i], keys[j]) || (keys[i] == keys[j] && i < j)
}

/// `order` lists every position of `keys` once, in stable order of the keys.
pub open spec fn is_stable_order(keys: Seq<Seq<char>>, order: Seq<usize>) -> bool {
    &&& order.len() == keys.len()
    &&& forall|a: int| 0 <= a < order.len() ==> (#[trigger] order[a]) < keys.len()
    &&& forall|a: int, b: int|
        0 <= a < b < order.len() ==> ahead(keys, #[trigger] order[a] as int, #[trigger] order[b] as int)
}

/// Ranking ahead is transitive.
proof fn lemma_ahead_transitive(keys: Seq<Seq<char>>, i: int, j: int, k: int)
    requires
        ahead(keys, i, j),
        ahead(keys, j, k),
    ensures
        ahead(keys, i, k),
{
    if before(keys[i], keys[j]) && before(keys[j], keys[k]) {
        lemma_before_transitive(keys[i], keys[j], keys[k]);
    }
}

/// The positions of `keys` in stable order.
pub fn stable_order(keys: &Vec<Vec<char>>) -> (order: Vec<usize>)
    ensures
        is_stable_order(views(keys@), order@),
{
    let ghost all = views(keys@);
    let mut order: Vec<usize> = Vec::new();
    for n in 0..keys.len()
        invariant
            all == views(keys@),
            order@.len() == n,
            forall|a: int| 0 <= a < order@.len() ==> (#[trigger] order@[a]) < n,
            forall|a: int, b: int|
                0 <= a < b < order@.len() ==> ahead(
                    all,
                    #[trigger] order@[a] as int,
                    #[trigger] order@[b] as int,
                ),
    {
        let ghost prior = order@;
        let mut at: usize = order.len();
        while at > 0 && is_before(&keys[n], &keys[order[at - 1]])
            invariant
                at <= order@.len(),
                n < keys@.len(),
                all == views(keys@),
                order@ == prior,
                order@.len() == n,
                forall|a: int| 0 <= a < order@.len() ==> (#[trigger] order@[a]) < n,
                forall|a: int|
                    at <= a < order@.len() ==> before(all[n as int], all[#[trigger] order@[a] as int]),
            decreases at,
        {
            at = at - 1;
        }
        proof {
            if at > 0 {
                lemma_before_total(all[n as int], all[prior[at - 1] as int]);
                assert(ahead(all, prior[at - 1] as int, n as int));
            }
            assert forall|a: int| 0 <= a < at implies ahead(all, #[trigger] prior[a] as int, n as int) by {
                if a < at - 1 {
                    lemma_ahead_transitive(all, prior[a] as int, prior[at - 1] as int, n as int);
                }
            }
        }
        order.insert(at, n);
        proof {
            assert forall|a: int, b: int| 0 <= a < b < order@.len() implies ahead(
                all,
                #[trigger] order@[a] as int,
                #[trigger] order@[b] as int,
            ) by {
                let pa = if a < at { a } else { a - 1 };
                let pb = if b < at { b } else { b - 1 };
                if a != at {
                    assert(order@[a] == prior[pa]);
                }
                if b != at {
                    assert(order@[b] == prior[pb]);
                }
            }
            assert forall|a: int| 0 <= a < order@.len() implies (#[trigger] order@[a]) < n + 1 by {
                let pa = if a < at { a } else { a - 1 };
                if a != at {
                    assert(order@[a] == prior[pa]);
                }
            }
        }
    }
    order
}

/// `order` lists position `k`.
pub open spec fn lists(order: Seq<usize>, k: int) -> bool {
    exists|a: int| 0 <= a < order.len() && #[trigger] order[a] == k
}

/// Every position stands in the order, and none twice.
pub proof fn lemma_order_is_permutation(keys: Seq<Seq<char>>, order: Seq<usize>)
    requires
        is_stable_order(keys, order),
    ensures
        forall|a: int, b: int|
            0 <= a < b < order.len() ==> #[trigger] order[a] != #[trigger] order[b],
        forall|k: int| 0 <= k < keys.len() ==> #[trigger] lists(order, k),
{
    assert forall|a: int, b: int| 0 <= a < b < order.len() implies #[trigger] order[a]
        != #[trigger] order[b] by {
        lemma_before_total(keys[order[a] as int], keys[order[b] as int]);
    }
    let places = Seq::new(order.len(), |a: int| order[a] as int);
    let range = vstd::set_lib::set_int_range(0, keys.len() as int);
    assert(places.no_duplicates());
    places.unique_seq_to_set();
    vstd::set_lib::lemma_int_range(0, keys.len() as int);
    assert(places.to_set().subset_of(range));
    vstd::set_lib::lemma_subset_equality(places.to_set(), range);
    assert forall|k: int| 0 <= k < keys.len() implies #[trigger] lists(order, k) by {
        assert(range.contains(k));
        assert(places.to_set().contains(k));
        assert(places.contains(k));
        let a = choose|a: int| 0 <= a < places.len() && places[a] == k;
        assert(order[a] == k);
    }
}

/// A number in decimal is made of digits that spell it.
pub proof fn lemma_spelled(n: nat)
    ensures
        decimal(n).len() > 0,
        all_digits(decimal(n)),
        digits_value(decimal(n)) == n,
    decreases n,
{
    if n >= 10 {
        lemma_spelled(n / 10);
        let d = decimal(n);
        assert(d.drop_last() =~= decimal(n / 10));
        assert forall|i: int| 0 <= i < d.len() implies '0' <= #[trigger] d[i] <= '9' by {
            if i < d.len() - 1 {
                assert(d[i] == decimal(n / 10)[i]);
            }
        }
    } else {
        reveal_with_fuel(digits_value, 2);
        assert(decimal(n).drop_last() =~= seq![]);
    }
}

/// A number that is written out is read back as itself, where it is not too large.
pub proof fn law_numbers_are_read_back(n: nat, max: nat, i: int)
    ensures
        unsigned(decimal(n), max) == (if n <= max {
            Some(n)
        } else {
            None
        }),
        i64::MIN <= i <= i64::MAX ==> signed(integer(i)) == Some(i),
{
    lemma_spelled(n);
    assert('0' <= decimal(n)[0] <= '9');
    let size = if i < 0 {
        (-i) as nat
    } else {
        i as nat
    };
    lemma_spelled(size);
    let d = decimal(size);
    assert('0' <= d[0] <= '9');
    reveal_strlit("-");
    assert(("-"@ + d).skip(1) =~= d);
    assert(("-"@ + d)[0] == '-');
}

/// The order of texts is that of a dictionary: a text comes before every longer one
/// that begins with it, and otherwise the first character that differs decides.
pub proof fn law_texts_are_in_dictionary_order(
    prefix: Seq<char>,
    c: char,
    d: char,
    x: Seq<char>,
    y: Seq<char>,
)
    ensures
        before(prefix, prefix.push(c) + x),
        !before(prefix.push(c) + x, prefix),
        c < d ==> before(prefix.push(c) + x, prefix.push(d) + y),
        c < d ==> !before(prefix.push(d) + y, prefix.push(c) + x),
    decreases prefix.len(),
{
    let a = prefix.push(c) + x;
    let b = prefix.push(d) + y;
    if prefix.len() > 0 {
        let rest = prefix.skip(1);
        assert(a.skip(1) =~= rest.push(c) + x);
        assert(b.skip(1) =~= rest.push(d) + y);
        law_texts_are_in_dictionary_order(rest, c, d, x, y);
    } else {
        assert(a[0] == c);
        assert(b[0] == d);
    }
}

/// White space at the ends is what is trimmed, and no more.
pub proof fn law_only_the_ends_are_trimmed(lead: Seq<char>, core: Seq<char>, trail: Seq<char>)
    requires
        forall|i: int| 0 <= i < lead.len() ==> is_space(#[trigger] lead[i]),
        forall|i: int| 0 <= i < trail.len() ==> is_space(#[trigger] trail[i]),
        core.len() > 0 ==> !is_space(core[0]) && !is_space(core.last()),
    ensures
        trimmed(lead + core + trail) == core,
{
    lemma_trim_start(lead, core + trail);
    assert(lead + core + trail =~= lead + (core + trail));
    if core.len() > 0 {
        assert((core + trail)[0] == core[0]);
        lemma_trim_end(core, trail);
    } else {
        assert(core + trail =~= trail + core);
        lemma_trim_start(trail, core);
        assert(trim_end(core) =~= core);
    }
}

proof fn lemma_trim_start(lead: Seq<char>, rest: Seq<char>)
    requires
        forall|i: int| 0 <= i < lead.len() ==> is_space(#[trigger] lead[i]),
    ensures
        trim_start(lead + rest) == trim_start(rest),
    decreases lead.len(),
{
    if lead.len() > 0 {
        let less = lead.skip(1);
        assert forall|i: int| 0 <= i < less.len() implies is_space(#[trigger] less[i]) by {
            assert(less[i] == lead[i + 1]);
        }
        assert(is_space(lead[0]));
        lemma_trim_start(less, rest);
        assert((lead + rest).skip(1) =~= less + rest);
    } else {
        assert(lead + rest =~= rest);
    }
}

proof fn lemma_trim_end(core: Seq<char>, trail: Seq<char>)
    requires
        core.len() > 0,
        !is_space(core.last()),
        forall|i: int| 0 <= i < trail.len() ==> is_space(#[trigger] trail[i]),
    ensures
        trim_end(core + trail) == core,
    decreases trail.len(),
{
    if trail.len() > 0 {
        let less = trail.drop_last();
        assert forall|i: int| 0 <= i < less.len() implies is_space(#[trigger] less[i]) by {
            assert(less[i] == trail[i]);
        }
        assert(is_space(trail[trail.len() - 1]));
        lemma_trim_end(core, less);
        assert((core + trail).drop_last() =~= core + less);
    } else {
        assert(core + trail =~= core);
    }
}

/// Nothing is left of a text exactly where it holds nothing but white space.
pub proof fn lemma_trimmed_is_empty(s: Seq<char>)
    ensures
        trimmed(s).len() > 0 <==> exists|i: int| 0 <= i < s.len() && !is_space(#[trigger] s[i]),
    decreases s.len(),
{
    if s.len() > 0 && is_space(s[0]) {
        let rest = s.skip(1);
        lemma_trimmed_is_empty(rest);
        if exists|i: int| 0 <= i < s.len() && !is_space(#[trigger] s[i]) {
            let i = choose|i: int| 0 <= i < s.len() && !is_space(#[trigger] s[i]);
            assert(rest[i - 1] == s[i]);
        }
        if exists|i: int| 0 <= i < rest.len() && !is_space(#[trigger] rest[i]) {
            let i = choose|i: int| 0 <= i < rest.len() && !is_space(#[trigger] rest[i]);
            assert(s[i + 1] == rest[i]);
        }
    } else if s.len() > 0 {
        assert(!is_space(s[0]));
        lemma_trim_end_keeps(s);
    }
}

proof fn lemma_trim_end_keeps(s: Seq<char>)
    requires
        s.len() > 0,
        !is_space(s[0]),
    ensures
        trim_end(s).len() > 0,
    decreases s.len(),
{
    if is_space(s.last()) {
        assert(s.drop_last()[0] == s[0]);
        lemma_trim_end_keeps(s.drop_last());
    }
}

/// Of the characters of ASCII, the blank and the control characters from the tab to
/// the carriage return are white space, and no others.
pub proof fn law_ascii_white_space(c: char)
    requires
        c <= '\u{7f}',
    ensures
        is_space(c) <==> c == ' ' || '\u{9}' <= c <= '\u{d}',
{
}

/// A line feed ends a line, with the carriage return before it, and what follows is
/// the lines of the rest.
pub proof fn law_line_feeds_end_lines(line: Seq<char>, rest: Seq<char>)
    requires
        !line.contains('\n'),
    ensures
        lines_of(line.push('\n') + rest) == seq![without_cr(line)] + lines_of(rest),
        line.len() > 0 ==> lines_of(line) == seq![line],
        without_cr(line.push('\r')) == line,
        line.len() > 0 && line.last() != '\r' ==> without_cr(line) == line,
{
    let s = line.push('\n') + rest;
    let n = line.len() as int;
    assert(s[n] == '\n');
    assert forall|j: int| 0 <= j < n implies s[j] != '\n' by {
        assert(s[j] == line[j]);
    }
    lemma_find_is(s, '\n', n);
    assert(s.take(n) =~= line);
    assert(s.skip(n + 1) =~= rest);
    assert forall|j: int| 0 <= j < n implies line[j] != '\n' by {}
    lemma_find_is(line, '\n', n);
    assert(line.push('\r').drop_last() =~= line);
}

/// Lists of texts are seen text by text, in their order.
pub proof fn law_lists_are_seen_item_by_item(
    texts: Seq<String>,
    chars: Seq<Vec<char>>,
    entries: Seq<(String, String)>,
    text: String,
    i: int,
)
    ensures
        strings(texts).len() == texts.len(),
        0 <= i < texts.len() ==> strings(texts)[i] == texts[i]@,
        views(chars).len() == chars.len(),
        0 <= i < chars.len() ==> views(chars)[i] == chars[i]@,
        pairs(entries).len() == entries.len(),
        0 <= i < entries.len() ==> pairs(entries)[i].0 == entries[i].0@ && pairs(entries)[i].1
            == entries[i].1@,
        maybe(Some(text)) == Some(text@),
        maybe(None) is None,
{
}

/// Numbers are written with the usual digits, the most significant first, and
/// negative ones with a sign.
pub proof fn law_how_numbers_are_written(n: nat, d: nat)
    requires
        d < 10,
    ensures
        decimal(d).len() == 1,
        decimal(d)[0] as int == '0' as int + d,
        n > 0 ==> decimal(10 * n + d) == decimal(n) + decimal(d),
        integer(n as int) == decimal(n),
        n > 0 ==> integer(-(n as int)) == "-"@ + decimal(n),
{
    if n > 0 {
        assert((10 * n + d) / 10 == n);
        assert((10 * n + d) % 10 == d);
        assert(decimal(n) + decimal(d) =~= decimal(n).push(digit(d as int)));
    }
}

/// Nothing but digits, behind a sign that may be there, is read as a number.
pub proof fn law_only_digits_are_a_number(s: Seq<char>, max: nat, i: int)
    ensures
        unsigned(Seq::<char>::empty(), max) is None,
        0 < i < s.len() && !('0' <= s[i] <= '9') ==> unsigned(s, max) is None && signed(s) is None,
        s.len() > 0 && !('0' <= s[0] <= '9') && s[0] != '+' ==> unsigned(s, max) is None,
        s.len() > 0 && '0' <= s[0] <= '9' ==> unsigned(seq!['+'] + s, max) == unsigned(s, max),
        unsigned(s, max) matches Some(n) ==> n <= max,
{
    if 0 < i < s.len() && !('0' <= s[i] <= '9') {
        assert(s.skip(1)[i - 1] == s[i]);
    }
    assert((seq!['+'] + s).skip(1) =~= s);
    assert((seq!['+'] + s)[0] == '+');
}

/// The white space beyond ASCII.
pub proof fn law_other_white_space(c: char)
    requires
        c > '\u{7f}',
    ensures
        is_space(c) <==> c == '\u{85}' || c == '\u{a0}' || c == '\u{1680}' || '\u{2000}' <= c
            <= '\u{200a}' || c == '\u{2028}' || c == '\u{2029}' || c == '\u{202f}' || c
            == '\u{205f}' || c == '\u{3000}',
{
}

proof fn lemma_space_after(word: Seq<char>, rest: Seq<char>)
    requires
        forall|i: int| 0 <= i < word.len() ==> !is_space(#[trigger] word[i]),
        rest.len() > 0 ==> is_space(rest[0]),
    ensures
        find_space(word + rest) == word.len(),
    decreases word.len(),
{
    if word.len() > 0 {
        let less = word.skip(1);
        assert forall|i: int| 0 <= i < less.len() implies !is_space(#[trigger] less[i]) by {
            assert(less[i] == word[i + 1]);
        }
        assert(!is_space(word[0]));
        lemma_space_after(less, rest);
        assert((word + rest).skip(1) =~= less + rest);
    } else {
        assert(word + rest =~= rest);
    }
}

/// White space parts words, however much of it there is, and belongs to none.
pub proof fn law_white_space_parts_words(word: Seq<char>, space: char, rest: Seq<char>)
    requires
        word.len() > 0,
        forall|i: int| 0 <= i < word.len() ==> !is_space(#[trigger] word[i]),
        is_space(space),
    ensures
        words_of(word.push(space) + rest) == seq![word] + words_of(rest),
        words_of(seq![space] + rest) == words_of(rest),
        words_of(word) == seq![word],
        words_of(Seq::<char>::empty()).len() == 0,
{
    let tail = seq![space] + rest;
    let s = word.push(space) + rest;
    assert(s =~= word + tail);
    assert(!is_space(word[0]));
    lemma_space_after(word, tail);
    assert(s.take(word.len() as int) =~= word);
    assert(s.skip(word.len() as int) =~= tail);
    assert(tail.skip(1) =~= rest);
    assert(tail[0] == space);
    assert(s[0] == word[0]);
    assert(words_of(tail) == words_of(rest));
    let none = Seq::<char>::empty();
    lemma_space_after(word, none);
    assert(word + none =~= word);
    assert(word.take(word.len() as int) =~= word);
    assert(word.skip(word.len() as int) =~= none);
    assert(words_of(none) =~= Seq::<Seq<char>>::empty());
    assert(words_of(word) =~= seq![word]);
}

/// Parts are joined with the separator between neighbours and nowhere else.
pub proof fn law_parts_are_joined(parts: Seq<Seq<char>>, part: Seq<char>, sep: char)
    ensures
        joined(Seq::<Seq<char>>::empty(), sep).len() == 0,
        joined(seq![part], sep) == part,
        parts.len() > 0 ==> joined(parts.push(part), sep) == joined(parts, sep) + seq![sep] + part,
{
    if parts.len() > 0 {
        assert(parts.push(part).drop_last() =~= parts);
        assert(joined(parts, sep).push(sep) =~= joined(parts, sep) + seq![sep]);
    }
}

/// A number that does not fit is no number.
pub proof fn law_numbers_out_of_range(n: nat)
    ensures
        n > i64::MAX ==> signed(decimal(n)) is None,
        n > i64::MAX + 1 ==> signed("-"@ + decimal(n)) is None,
{
    lemma_spelled(n);
    let d = decimal(n);
    assert('0' <= d[0] <= '9');
    reveal_strlit("-");
    assert(("-"@ + d).skip(1) =~= d);
    assert(("-"@ + d)[0] == '-');
}

} // verus!
