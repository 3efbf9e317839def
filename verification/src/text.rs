//! Character sequences: splitting, joining and decimal numbers.
//!
//! Every function here works on `Seq<char>`, the view of `str` and `String`,
//! so that a position always counts characters, never bytes.

use vstd::prelude::*;

verus! {

/// Whether `c` has the Unicode property White_Space.
pub open spec fn is_whitespace(c: char) -> bool {
    ||| '\u{9}' <= c <= '\u{d}'
    ||| c == ' '
    ||| c == '\u{85}'
    ||| c == '\u{a0}'
    ||| c == '\u{1680}'
    ||| '\u{2000}' <= c <= '\u{200a}'
    ||| c == '\u{2028}'
    ||| c == '\u{2029}'
    ||| c == '\u{202f}'
    ||| c == '\u{205f}'
    ||| c == '\u{3000}'
}

/// What cuts a text into pieces.
pub enum Delimiter {
    /// Each occurrence of one character.
    Char(char),
    /// Each whitespace character.
    Whitespace,
}

impl Delimiter {
    /// Whether `c` is a cut.
    pub open spec fn cuts(self, c: char) -> bool {
        match self {
            Delimiter::Char(sep) => c == sep,
            Delimiter::Whitespace => is_whitespace(c),
        }
    }
}

/// The pieces into which `by` cuts `s`.
///
/// There is always one piece more than there are cuts: two cuts in a row, or
/// one at either end, leave an empty piece.
pub open spec fn pieces(s: Seq<char>, by: Delimiter) -> Seq<Seq<char>>
    decreases s.len(),
{
    if s.len() == 0 {
        seq![Seq::empty()]
    } else {
        let before = pieces(s.drop_last(), by);
        if by.cuts(s.last()) {
            before.push(Seq::empty())
        } else {
            before.drop_last().push(before.last().push(s.last()))
        }
    }
}

/// The pieces of `s` between occurrences of `sep`.
pub open spec fn split(s: Seq<char>, sep: char) -> Seq<Seq<char>> {
    pieces(s, Delimiter::Char(sep))
}

/// The members of `parts` that hold at least one character, in order.
pub open spec fn nonempty(parts: Seq<Seq<char>>) -> Seq<Seq<char>>
    decreases parts.len(),
{
    if parts.len() == 0 {
        Seq::empty()
    } else if parts.last().len() > 0 {
        nonempty(parts.drop_last()).push(parts.last())
    } else {
        nonempty(parts.drop_last())
    }
}

/// The maximal runs of characters of `s` that are not whitespace, in order.
pub open spec fn words(s: Seq<char>) -> Seq<Seq<char>> {
    nonempty(pieces(s, Delimiter::Whitespace))
}

/// `parts` written one after the other with `sep` between neighbours.
pub open spec fn join(parts: Seq<Seq<char>>, sep: char) -> Seq<char>
    decreases parts.len(),
{
    if parts.len() == 0 {
        Seq::empty()
    } else if parts.len() == 1 {
        parts[0]
    } else {
        join(parts.drop_last(), sep).push(sep) + parts.last()
    }
}

/// Whether `c` occurs nowhere in `s`.
pub open spec fn free_of(s: Seq<char>, c: char) -> bool {
    forall|i: int| 0 <= i < s.len() ==> s[i] != c
}

/// Joining one more part puts `sep` and that part behind what was joined
/// before.
pub proof fn lemma_join_push(parts: Seq<Seq<char>>, last: Seq<char>, sep: char)
    requires
        parts.len() >= 1,
    ensures
        join(parts.push(last), sep) == join(parts, sep).push(sep) + last,
{
    assert(parts.push(last).drop_last() =~= parts);
}

/// A character that stands in no part, and is not the separator, stands
/// nowhere in what they are joined to.
pub proof fn lemma_join_free(parts: Seq<Seq<char>>, sep: char, c: char)
    requires
        sep != c,
        forall|i: int| 0 <= i < parts.len() ==> free_of(#[trigger] parts[i], c),
    ensures
        free_of(join(parts, sep), c),
    decreases parts.len(),
{
    if parts.len() >= 2 {
        let init = parts.drop_last();
        assert forall|i: int| 0 <= i < init.len() implies free_of(#[trigger] init[i], c) by {
            assert(init[i] == parts[i]);
        }
        lemma_join_free(init, sep, c);
        assert(free_of(parts.last(), c));
    } else if parts.len() == 1 {
        assert(free_of(parts[0], c));
    }
}

/// There is always at least one piece.
pub proof fn lemma_pieces_nonempty(s: Seq<char>, by: Delimiter)
    ensures
        pieces(s, by).len() >= 1,
    decreases s.len(),
{
    if s.len() > 0 {
        lemma_pieces_nonempty(s.drop_last(), by);
    }
}

/// Appending text that holds no delimiter lengthens the last piece and
/// leaves the others alone.
pub proof fn lemma_pieces_append(s: Seq<char>, tail: Seq<char>, by: Delimiter)
    requires
        forall|i: int| 0 <= i < tail.len() ==> !by.cuts(tail[i]),
    ensures
        pieces(s + tail, by) == pieces(s, by).drop_last().push(
            pieces(s, by).last() + tail,
        ),
    decreases tail.len(),
{
    lemma_pieces_nonempty(s, by);
    let p = pieces(s, by);
    if tail.len() == 0 {
        assert(s + tail =~= s);
        assert(p.last() + tail =~= p.last());
        assert(p.drop_last().push(p.last()) =~= p);
    } else {
        let init = tail.drop_last();
        lemma_pieces_append(s, init, by);
        assert((s + tail).drop_last() =~= s + init);
        assert((s + tail).last() == tail.last());
        let q = pieces(s + init, by);
        assert(q.drop_last() =~= p.drop_last());
        assert(q.last().push(tail.last()) =~= p.last() + tail);
    }
}

/// Text that holds no `sep` is a single piece.
pub proof fn lemma_split_plain(s: Seq<char>, sep: char)
    requires
        free_of(s, sep),
    ensures
        split(s, sep) == seq![s],
{
    let by = Delimiter::Char(sep);
    let none = Seq::<char>::empty();
    lemma_pieces_append(none, s, by);
    assert(none + s =~= s);
    assert(pieces(none, by) =~= seq![none]);
    assert(seq![none].drop_last().push(none + s) =~= seq![s]);
}

/// Splitting undoes joining: parts that hold no `sep` come back as they were.
pub proof fn lemma_split_join(parts: Seq<Seq<char>>, sep: char)
    requires
        parts.len() >= 1,
        forall|i: int| 0 <= i < parts.len() ==> free_of(#[trigger] parts[i], sep),
    ensures
        split(join(parts, sep), sep) == parts,
    decreases parts.len(),
{
    let by = Delimiter::Char(sep);
    if parts.len() == 1 {
        lemma_split_plain(parts[0], sep);
        assert(seq![parts[0]] =~= parts);
    } else {
        let init = parts.drop_last();
        assert forall|i: int| 0 <= i < init.len() implies free_of(#[trigger] init[i], sep) by {
            assert(init[i] == parts[i]);
        }
        lemma_split_join(init, sep);
        let head = join(init, sep).push(sep);
        assert(head.drop_last() =~= join(init, sep));
        assert(pieces(head, by) == init.push(Seq::empty()));
        lemma_pieces_append(head, parts.last(), by);
        assert(Seq::<char>::empty() + parts.last() =~= parts.last());
        assert(init.push(Seq::empty()).drop_last().push(parts.last()) =~= parts);
    }
}

/// Whether `s` holds at least one character and no whitespace.
pub open spec fn is_word(s: Seq<char>) -> bool {
    s.len() > 0 && forall|i: int| 0 <= i < s.len() ==> !is_whitespace(s[i])
}

/// Joining behind a first part puts that part and `sep` before what the
/// others are joined to.
pub proof fn lemma_join_first(first: Seq<char>, parts: Seq<Seq<char>>, sep: char)
    requires
        parts.len() >= 1,
    ensures
        join(seq![first] + parts, sep) == first.push(sep) + join(parts, sep),
    decreases parts.len(),
{
    let all = seq![first] + parts;
    assert(all.drop_last() =~= seq![first] + parts.drop_last());
    if parts.len() == 1 {
        assert(all.drop_last() =~= seq![first]);
        assert(join(seq![first], sep) == first);
        assert(join(all, sep) =~= first.push(sep) + parts[0]);
    } else {
        lemma_join_first(first, parts.drop_last(), sep);
        assert(join(all, sep) =~= first.push(sep) + join(parts, sep));
    }
}

/// Cutting into words undoes joining with single spaces: words that were
/// joined come back as they were.
pub proof fn lemma_words_join(parts: Seq<Seq<char>>)
    requires
        parts.len() >= 1,
        forall|i: int| 0 <= i < parts.len() ==> is_word(#[trigger] parts[i]),
    ensures
        words(join(parts, ' ')) == parts,
    decreases parts.len(),
{
    let by = Delimiter::Whitespace;
    let none = Seq::<char>::empty();
    let last = parts.last();
    assert(is_word(last));
    if parts.len() == 1 {
        lemma_pieces_append(none, last, by);
        assert(none + last =~= last);
        assert(pieces(none, by) =~= seq![none]);
        assert(pieces(last, by) =~= seq![last]);
        assert(seq![last].drop_last() =~= Seq::<Seq<char>>::empty());
        assert(nonempty(Seq::<Seq<char>>::empty()) =~= Seq::<Seq<char>>::empty());
        assert(nonempty(seq![last]) =~= seq![last]);
        assert(seq![last] =~= parts);
    } else {
        let init = parts.drop_last();
        assert forall|i: int| 0 <= i < init.len() implies is_word(#[trigger] init[i]) by {
            assert(init[i] == parts[i]);
        }
        lemma_words_join(init);
        let head = join(init, ' ').push(' ');
        let before = pieces(join(init, ' '), by);
        assert(head.drop_last() =~= join(init, ' '));
        assert(pieces(head, by) == before.push(none));
        lemma_pieces_append(head, last, by);
        assert(none + last =~= last);
        let now = before.push(last);
        assert(before.push(none).drop_last().push(last) =~= now);
        assert(now.drop_last() =~= before);
        assert(init.push(last) =~= parts);
    }
}

/// Whether `c` is one of the ten decimal digits.
pub open spec fn is_digit(c: char) -> bool {
    '0' <= c <= '9'
}

/// The number that the digit `c` stands for.
pub open spec fn digit_value(c: char) -> nat {
    (c as int - '0' as int) as nat
}

/// The digit that stands for `d`, a number below ten.
pub open spec fn digit_char(d: nat) -> char {
    ('0' as int + d) as char
}

/// Whether `s` holds decimal digits only.
pub open spec fn all_digits(s: Seq<char>) -> bool {
    forall|i: int| 0 <= i < s.len() ==> is_digit(s[i])
}

/// The number that the digits of `s` write in base ten, most significant
/// digit first.
pub open spec fn digits_value(s: Seq<char>) -> nat
    decreases s.len(),
{
    if s.len() == 0 {
        0
    } else {
        digits_value(s.drop_last()) * 10 + digit_value(s.last())
    }
}

/// `n` in base ten, without leading zeros.
pub open spec fn decimal(n: nat) -> Seq<char>
    decreases n,
{
    if n < 10 {
        seq![digit_char(n)]
    } else {
        decimal(n / 10).push(digit_char(n % 10))
    }
}

/// The number that `s` writes, if it writes one that a `usize` holds: an
/// optional `+`, then one or more decimal digits and nothing else.
pub open spec fn usize_of(s: Seq<char>) -> Option<usize> {
    let digits = if s.len() > 0 && s[0] == '+' {
        s.drop_first()
    } else {
        s
    };
    if digits.len() > 0 && all_digits(digits) && digits_value(digits) <= usize::MAX {
        Some(digits_value(digits) as usize)
    } else {
        None
    }
}

/// A number in base ten is one or more digits, and they write that number.
pub proof fn lemma_decimal(n: nat)
    ensures
        decimal(n).len() >= 1,
        all_digits(decimal(n)),
        digits_value(decimal(n)) == n,
    decreases n,
{
    if n < 10 {
        assert(decimal(n).drop_last() =~= Seq::<char>::empty());
        assert(digits_value(decimal(n).drop_last()) == 0);
    } else {
        lemma_decimal(n / 10);
        assert(decimal(n).drop_last() =~= decimal(n / 10));
    }
}

/// Reading a number that was written in base ten gives the number back.
pub proof fn lemma_usize_of_decimal(n: usize)
    ensures
        usize_of(decimal(n as nat)) == Some(n),
{
    lemma_decimal(n as nat);
}

/// A prefix of a run of digits writes a number that is no larger.
pub proof fn lemma_digits_value_prefix(s: Seq<char>, k: int)
    requires
        0 <= k <= s.len(),
    ensures
        digits_value(s.take(k)) <= digits_value(s),
    decreases s.len(),
{
    if k < s.len() {
        lemma_digits_value_prefix(s.drop_last(), k);
        assert(s.drop_last().take(k) =~= s.take(k));
    } else {
        assert(s.take(k) =~= s);
    }
}

/// `String::push` of the standard library: the string afterwards is the
/// string before with `c` appended as its last character.
pub assume_specification[ String::push ](s: &mut String, c: char)
    ensures
        final(s)@ == old(s)@.push(c),
;

/// The characters of `s`, in order.
pub fn chars_of(s: &str) -> (v: Vec<char>)
    ensures
        v@ == s@,
{
    let mut v: Vec<char> = Vec::new();
    for c in it: s.chars()
        invariant
            it.seq() == s@,
            v@ == it.seq().take(it.index() as int),
    {
        v.push(c);
    }
    v
}

/// Appends to `out` the characters of `v`.
pub fn push_chars(out: &mut String, v: &[char])
    ensures
        final(out)@ == old(out)@ + v@,
{
    let mut i: usize = 0;
    assert(out@ =~= old(out)@ + v@.take(0));
    while i < v.len()
        invariant
            i <= v.len(),
            out@ == old(out)@ + v@.take(i as int),
        decreases v.len() - i,
    {
        out.push(v[i]);
        i += 1;
        assert(out@ =~= old(out)@ + v@.take(i as int));
    }
    assert(v@.take(v.len() as int) =~= v@);
}

/// A string of the characters of `v`.
pub fn string_of(v: &[char]) -> (s: String)
    ensures
        s@ == v@,
{
    let mut s = String::new();
    push_chars(&mut s, v);
    assert(s@ =~= v@);
    s
}

/// Whether `c` is whitespace.
pub fn whitespace(c: char) -> (b: bool)
    ensures
        b == is_whitespace(c),
{
    ('\u{9}' <= c && c <= '\u{d}') || c == ' ' || c == '\u{85}' || c == '\u{a0}' || c
        == '\u{1680}' || ('\u{2000}' <= c && c <= '\u{200a}') || c == '\u{2028}' || c
        == '\u{2029}' || c == '\u{202f}' || c == '\u{205f}' || c == '\u{3000}'
}

/// What each member of `parts` holds.
pub open spec fn views(parts: Seq<Vec<char>>) -> Seq<Seq<char>> {
    Seq::new(parts.len(), |i: int| parts[i]@)
}

/// The pieces of `v`, cut at each `sep`.
pub fn split_on(v: &[char], sep: char) -> (parts: Vec<Vec<char>>)
    ensures
        views(parts@) == split(v@, sep),
{
    let mut parts: Vec<Vec<char>> = Vec::new();
    let mut current: Vec<char> = Vec::new();
    let mut i: usize = 0;
    assert(views(parts@).push(current@) =~= seq![Seq::<char>::empty()]);
    while i < v.len()
        invariant
            i <= v.len(),
            split(v@.take(i as int), sep) == views(parts@).push(current@),
        decreases v.len() - i,
    {
        let c = v[i];
        let ghost before = views(parts@).push(current@);
        assert(v@.take(i as int + 1).drop_last() =~= v@.take(i as int));
        if c == sep {
            parts.push(current);
            current = Vec::new();
            assert(views(parts@).push(current@) =~= before.push(Seq::empty()));
        } else {
            current.push(c);
            assert(views(parts@).push(current@) =~= before.drop_last().push(
                before.last().push(c),
            ));
        }
        i += 1;
    }
    let ghost before = views(parts@).push(current@);
    parts.push(current);
    assert(v@.take(v.len() as int) =~= v@);
    assert(views(parts@) =~= before);
    parts
}

/// The words of `v`: its maximal runs of characters that are not whitespace.
pub fn split_words(v: &[char]) -> (parts: Vec<Vec<char>>)
    ensures
        views(parts@) == words(v@),
{
    let mut parts: Vec<Vec<char>> = Vec::new();
    let mut current: Vec<char> = Vec::new();
    let mut i: usize = 0;
    assert(pieces(v@.take(0), Delimiter::Whitespace).drop_last() =~= Seq::empty());
    assert(views(parts@) =~= Seq::empty());
    while i < v.len()
        invariant
            i <= v.len(),
            pieces(v@.take(i as int), Delimiter::Whitespace).len() >= 1,
            views(parts@) == nonempty(
                pieces(v@.take(i as int), Delimiter::Whitespace).drop_last(),
            ),
            current@ == pieces(v@.take(i as int), Delimiter::Whitespace).last(),
        decreases v.len() - i,
    {
        let c = v[i];
        let ghost before = pieces(v@.take(i as int), Delimiter::Whitespace);
        let ghost done = views(parts@);
        assert(v@.take(i as int + 1).drop_last() =~= v@.take(i as int));
        if whitespace(c) {
            assert(before.push(Seq::empty()).drop_last() =~= before);
            if current.len() > 0 {
                parts.push(current);
                assert(views(parts@) =~= done.push(before.last()));
            }
            current = Vec::new();
        } else {
            current.push(c);
            assert(before.drop_last().push(before.last().push(c)).drop_last()
                =~= before.drop_last());
        }
        i += 1;
    }
    assert(v@.take(v.len() as int) =~= v@);
    if current.len() > 0 {
        let ghost done = views(parts@);
        parts.push(current);
        assert(views(parts@) =~= done.push(current@));
    }
    parts
}

/// Reads `v` as a number, as `usize_of` says.
pub fn parse_usize(v: &[char]) -> (n: Option<usize>)
    ensures
        n == usize_of(v@),
{
    let first: usize = if v.len() > 0 && v[0] == '+' {
        1
    } else {
        0
    };
    let ghost digits = v@.skip(first as int);
    assert(first == 1 ==> digits =~= v@.drop_first());
    assert(first == 0 ==> digits =~= v@);
    if first == v.len() {
        return None;
    }
    let mut value: usize = 0;
    let mut i: usize = first;
    assert(digits.take(0) =~= Seq::<char>::empty());
    while i < v.len()
        invariant
            first <= i <= v.len(),
            digits == v@.skip(first as int),
            digits == if v@.len() > 0 && v@[0] == '+' {
                v@.drop_first()
            } else {
                v@
            },
            all_digits(digits.take(i - first)),
            value == digits_value(digits.take(i - first)),
        decreases v.len() - i,
    {
        let c = v[i];
        let ghost seen = digits.take(i - first);
        assert(digits.take(i - first + 1).drop_last() =~= seen);
        assert(digits.take(i - first + 1).last() == c);
        if !('0' <= c && c <= '9') {
            assert(!is_digit(digits[i - first]));
            return None;
        }
        let digit: usize = (c as u32 - '0' as u32) as usize;
        if value > (usize::MAX - digit) / 10 {
            proof {
                if all_digits(digits) {
                    lemma_digits_value_prefix(digits, i - first + 1);
                }
            }
            return None;
        }
        value = value * 10 + digit;
        i += 1;
    }
    assert(digits.take(i - first) =~= digits);
    Some(value)
}

/// Appends to `out` the number `n` in base ten.
pub fn push_decimal(out: &mut String, n: usize)
    ensures
        final(out)@ == old(out)@ + decimal(n as nat),
    decreases n,
{
    if n >= 10 {
        push_decimal(out, n / 10);
    }
    let digit: u8 = (n % 10) as u8;
    out.push((48u8 + digit) as char);
    assert(out@ =~= old(out)@ + decimal(n as nat));
}

/// Whether `v` holds the characters of `word` and no others.
pub fn spells(v: &[char], word: &str) -> (same: bool)
    ensures
        same == (v@ == word@),
{
    let w = chars_of(word);
    if v.len() != w.len() {
        return false;
    }
    let mut i: usize = 0;
    while i < v.len()
        invariant
            i <= v.len() == w.len(),
            w@ == word@,
            forall|j: int| 0 <= j < i ==> v@[j] == w@[j],
        decreases v.len() - i,
    {
        if v[i] != w[i] {
            assert(v@[i as int] != word@[i as int]);
            return false;
        }
        i += 1;
    }
    assert(v@ =~= w@);
    true
}

/// Digits are digits: a run of them holds no other character.
pub proof fn lemma_digits_free(s: Seq<char>, c: char)
    requires
        all_digits(s),
        !is_digit(c),
    ensures
        free_of(s, c),
{
}

} // verus!
