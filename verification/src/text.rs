//! Character-level text handling shared by the rest of the library: the
//! mathematical model of searching, splitting and trimming text, and the
//! executable functions that follow it.
use vstd::prelude::*;

verus! {

// ---------------------------------------------------------------------------
// Model
// ---------------------------------------------------------------------------

/// `pat` occurs in `s` starting at position `i`.
pub open spec fn occurs_at(s: Seq<char>, pat: Seq<char>, i: int) -> bool {
    &&& 0 <= i
    &&& i + pat.len() <= s.len()
    &&& s.subrange(i, i + pat.len()) == pat
}

/// `i` is the leftmost position at which `pat` occurs in `s`.
pub open spec fn is_first_occurrence(s: Seq<char>, pat: Seq<char>, i: int) -> bool {
    &&& occurs_at(s, pat, i)
    &&& forall|j: int| 0 <= j < i ==> !occurs_at(s, pat, j)
}

/// The leftmost position at which `pat` occurs in `s`, if it occurs at all.
pub open spec fn first_occurrence(s: Seq<char>, pat: Seq<char>) -> Option<int> {
    if exists|i: int| is_first_occurrence(s, pat, i) {
        Some(choose|i: int| is_first_occurrence(s, pat, i))
    } else {
        None
    }
}

/// `pat` occurs somewhere in `s`.
pub open spec fn contains_pattern(s: Seq<char>, pat: Seq<char>) -> bool {
    exists|i: int| occurs_at(s, pat, i)
}

/// The text before the first occurrence of `pat` and the text after it
/// (what `splitn(2, pat)` yields when `pat` occurs).
pub open spec fn split_once(s: Seq<char>, pat: Seq<char>) -> Option<(Seq<char>, Seq<char>)> {
    match first_occurrence(s, pat) {
        Some(i) => Some((s.take(i), s.skip(i + pat.len()))),
        None => None,
    }
}

/// The second piece of `s` split at every occurrence of `pat`, searching
/// left to right without overlap: the text between the first and the second
/// occurrence, or up to the end when there is no second one.
pub open spec fn second_piece(s: Seq<char>, pat: Seq<char>) -> Option<Seq<char>> {
    match split_once(s, pat) {
        Some((_, rest)) => match first_occurrence(rest, pat) {
            Some(j) => Some(rest.take(j)),
            None => Some(rest),
        },
        None => None,
    }
}

/// The pieces of `s` between the occurrences of the character `c`
/// (what `split(c)` yields): always at least one piece.
pub open spec fn split_char(s: Seq<char>, c: char) -> Seq<Seq<char>>
    decreases s.len(),
{
    match first_occurrence(s, seq![c]) {
        Some(i) => if 0 <= i < s.len() {
            seq![s.take(i)] + split_char(s.skip(i + 1), c)
        } else {
            seq![s]
        },
        None => seq![s],
    }
}

/// The pieces joined back, each followed by `c`.
pub open spec fn join_terminated(pieces: Seq<Seq<char>>, c: char) -> Seq<char>
    decreases pieces.len(),
{
    if pieces.len() == 0 {
        Seq::empty()
    } else {
        pieces[0].push(c) + join_terminated(pieces.drop_first(), c)
    }
}

/// Characters with the Unicode `White_Space` property, which `char::is_whitespace`
/// and `str::trim` go by.
pub open spec fn is_white_space(c: char) -> bool {
    ||| ('\u{9}' <= c && c <= '\u{d}')
    ||| c == ' '
    ||| c == '\u{85}'
    ||| c == '\u{a0}'
    ||| c == '\u{1680}'
    ||| ('\u{2000}' <= c && c <= '\u{200a}')
    ||| c == '\u{2028}'
    ||| c == '\u{2029}'
    ||| c == '\u{202f}'
    ||| c == '\u{205f}'
    ||| c == '\u{3000}'
}

/// `s` without its leading white space.
pub open spec fn trim_start(s: Seq<char>) -> Seq<char>
    decreases s.len(),
{
    if s.len() > 0 && is_white_space(s[0]) {
        trim_start(s.drop_first())
    } else {
        s
    }
}

/// `s` without its trailing white space.
pub open spec fn trim_end(s: Seq<char>) -> Seq<char>
    decreases s.len(),
{
    if s.len() > 0 && is_white_space(s.last()) {
        trim_end(s.drop_last())
    } else {
        s
    }
}

/// `s` without leading and trailing white space (`str::trim`).
pub open spec fn trim(s: Seq<char>) -> Seq<char> {
    trim_end(trim_start(s))
}

/// The ASCII digit for a number below ten.
pub open spec fn digit_char(d: nat) -> char {
    if d == 0 { '0' }
    else if d == 1 { '1' }
    else if d == 2 { '2' }
    else if d == 3 { '3' }
    else if d == 4 { '4' }
    else if d == 5 { '5' }
    else if d == 6 { '6' }
    else if d == 7 { '7' }
    else if d == 8 { '8' }
    else { '9' }
}

/// The decimal notation of `n`, without leading zeros (as `{}` formats it).
pub open spec fn decimal(n: nat) -> Seq<char>
    decreases n,
{
    if n < 10 {
        seq![digit_char(n)]
    } else {
        decimal(n / 10).push(digit_char(n % 10))
    }
}

pub open spec fn is_ascii_digit(c: char) -> bool {
    '0' <= c && c <= '9'
}

pub open spec fn all_ascii_digits(s: Seq<char>) -> bool {
    forall|i: int| 0 <= i < s.len() ==> is_ascii_digit(#[trigger] s[i])
}

/// The number that a string of ASCII digits writes in decimal.
pub open spec fn digits_value(s: Seq<char>) -> int
    decreases s.len(),
{
    if s.len() == 0 {
        0
    } else {
        digits_value(s.drop_last()) * 10 + (s.last() as int - '0' as int)
    }
}

/// What `str::parse::<i32>` accepts: an optional sign, then at least one
/// ASCII digit, the value in the range of `i32`.
pub open spec fn parse_i32_spec(s: Seq<char>) -> Option<i32> {
    let negative = s.len() > 0 && s[0] == '-';
    let body = if s.len() > 0 && (s[0] == '-' || s[0] == '+') {
        s.drop_first()
    } else {
        s
    };
    let value = if negative { -digits_value(body) } else { digits_value(body) };
    if body.len() > 0 && all_ascii_digits(body) && i32::MIN <= value <= i32::MAX {
        Some(value as i32)
    } else {
        None
    }
}

// ---------------------------------------------------------------------------
// Lemmas
// ---------------------------------------------------------------------------

/// A first occurrence is the one that `first_occurrence` names.
pub proof fn lemma_first_occurrence_is(s: Seq<char>, pat: Seq<char>, i: int)
    requires
        is_first_occurrence(s, pat, i),
    ensures
        first_occurrence(s, pat) == Some(i),
{
    let k = choose|k: int| is_first_occurrence(s, pat, k);
    assert(is_first_occurrence(s, pat, k));
    if k < i {
        assert(!occurs_at(s, pat, k));
    } else if i < k {
        assert(!occurs_at(s, pat, i));
    }
}

/// Without any occurrence there is no first one.
pub proof fn lemma_no_occurrence(s: Seq<char>, pat: Seq<char>)
    requires
        forall|j: int| 0 <= j ==> !occurs_at(s, pat, j),
    ensures
        first_occurrence(s, pat).is_none(),
        !contains_pattern(s, pat),
{
    if exists|i: int| is_first_occurrence(s, pat, i) {
        let k = choose|i: int| is_first_occurrence(s, pat, i);
        assert(occurs_at(s, pat, k));
    }
    if contains_pattern(s, pat) {
        let k = choose|i: int| occurs_at(s, pat, i);
        assert(occurs_at(s, pat, k));
    }
}

/// The first occurrence of a single character is its first position.
pub proof fn lemma_char_occurs_at(s: Seq<char>, c: char, i: int)
    ensures
        occurs_at(s, seq![c], i) <==> (0 <= i < s.len() && s[i] == c),
{
    if 0 <= i < s.len() && s[i] == c {
        assert(s.subrange(i, i + 1) =~= seq![c]);
    }
    if occurs_at(s, seq![c], i) {
        assert(s.subrange(i, i + 1)[0] == s[i]);
    }
}

/// Splitting text that is a piece, `c`, then more text.
pub proof fn lemma_split_char_cons(first: Seq<char>, c: char, rest: Seq<char>)
    requires
        forall|k: int| 0 <= k < first.len() ==> first[k] != c,
    ensures
        split_char(first.push(c) + rest, c) == seq![first] + split_char(rest, c),
{
    let s = first.push(c) + rest;
    let i = first.len() as int;
    assert forall|j: int| 0 <= j < i implies !occurs_at(s, seq![c], j) by {
        lemma_char_occurs_at(s, c, j);
        assert(s[j] == first[j]);
    }
    lemma_char_occurs_at(s, c, i);
    lemma_first_occurrence_is(s, seq![c], i);
    assert(s.take(i) =~= first);
    assert(s.skip(i + 1) =~= rest);
}

/// Text without `c` is a single piece.
pub proof fn lemma_split_char_none(s: Seq<char>, c: char)
    requires
        forall|k: int| 0 <= k < s.len() ==> s[k] != c,
    ensures
        split_char(s, c) == seq![s],
{
    assert forall|j: int| 0 <= j implies !occurs_at(s, seq![c], j) by {
        lemma_char_occurs_at(s, c, j);
    }
    lemma_no_occurrence(s, seq![c]);
}

/// Splitting at `c` gives back the pieces that were joined with `c` after
/// each of them, followed by one empty piece.
pub proof fn lemma_split_join_terminated(pieces: Seq<Seq<char>>, c: char)
    requires
        forall|p: int, k: int|
            0 <= p < pieces.len() && 0 <= k < pieces[p].len() ==> #[trigger] pieces[p][k] != c,
    ensures
        split_char(join_terminated(pieces, c), c) == pieces.push(Seq::<char>::empty()),
    decreases pieces.len(),
{
    if pieces.len() == 0 {
        lemma_split_char_none(Seq::<char>::empty(), c);
        assert(pieces.push(Seq::<char>::empty()) =~= seq![Seq::<char>::empty()]);
    } else {
        let rest = pieces.drop_first();
        assert forall|p: int, k: int|
            0 <= p < rest.len() && 0 <= k < rest[p].len() implies #[trigger] rest[p][k] != c by {
            assert(rest[p] == pieces[p + 1]);
        }
        lemma_split_join_terminated(rest, c);
        assert forall|k: int| 0 <= k < pieces[0].len() implies pieces[0][k] != c by {
            assert(pieces[0][k] == pieces[0][k]);
        }
        lemma_split_char_cons(pieces[0], c, join_terminated(rest, c));
        assert(seq![pieces[0]] + rest.push(Seq::<char>::empty()) =~= pieces.push(Seq::<char>::empty()));
    }
}

/// Digits that were read one at a time never give a smaller value once more follow.
pub proof fn lemma_digits_value_grows(s: Seq<char>, k: int)
    requires
        0 <= k <= s.len(),
        all_ascii_digits(s),
    ensures
        digits_value(s.take(k)) <= digits_value(s),
        0 <= digits_value(s.take(k)),
    decreases s.len() - k,
{
    lemma_digits_value_nonnegative(s.take(k));
    if k < s.len() {
        lemma_digits_value_grows(s, k + 1);
        assert(s.take(k + 1).drop_last() =~= s.take(k));
        assert(is_ascii_digit(s[k]));
    } else {
        assert(s.take(k) =~= s);
    }
}

pub proof fn lemma_digits_value_nonnegative(s: Seq<char>)
    requires
        all_ascii_digits(s),
    ensures
        0 <= digits_value(s),
    decreases s.len(),
{
    if s.len() > 0 {
        assert(all_ascii_digits(s.drop_last())) by {
            assert forall|i: int| 0 <= i < s.drop_last().len() implies is_ascii_digit(
                #[trigger] s.drop_last()[i],
            ) by {
                assert(s.drop_last()[i] == s[i]);
            }
        }
        lemma_digits_value_nonnegative(s.drop_last());
        assert(is_ascii_digit(s[s.len() - 1]));
    }
}

/// The digits of a decimal are ASCII digits that give back the number.
pub proof fn lemma_decimal_digits(n: nat)
    ensures
        decimal(n).len() > 0,
        all_ascii_digits(decimal(n)),
        digits_value(decimal(n)) == n,
    decreases n,
{
    let d = decimal(n);
    if n < 10 {
        assert(d == seq![digit_char(n)]);
        assert(d.drop_last() =~= Seq::<char>::empty());
        assert(digits_value(Seq::<char>::empty()) == 0);
        assert(d.last() == digit_char(n));
        assert(digit_char(n) as int - '0' as int == n);
        assert(is_ascii_digit(d[0]));
    } else {
        lemma_decimal_digits(n / 10);
        let q = decimal(n / 10);
        let r = (n % 10) as nat;
        assert(d == q.push(digit_char(r)));
        assert(d.drop_last() =~= q);
        assert(digit_char(r) as int - '0' as int == r);
        assert(n == (n / 10) * 10 + n % 10) by (nonlinear_arith);
        assert(d.last() == digit_char(r));
        assert forall|k: int| 0 <= k < d.len() implies is_ascii_digit(#[trigger] d[k]) by {
            if k < q.len() {
                assert(d[k] == q[k]);
            }
        }
    }
}

/// Reading what a number's decimal notation writes gives back the number,
/// with or without a minus sign in front: every ASCII digit is read as a
/// digit, with its value.
pub proof fn lemma_parse_decimal(n: nat)
    requires
        n <= i32::MAX,
    ensures
        parse_i32_spec(decimal(n)) == Some(n as i32),
        parse_i32_spec(seq!['-'] + decimal(n)) == Some((-(n as int)) as i32),
{
    lemma_decimal_digits(n);
    let d = decimal(n);
    assert(is_ascii_digit(d[0]));
    let neg = seq!['-'] + d;
    assert(neg[0] == '-');
    assert(neg.drop_first() =~= d);
}

// ---------------------------------------------------------------------------
// Executable functions
// ---------------------------------------------------------------------------

/// Appends one character; `String::push`.
#[verifier::external_body]
fn push_char(s: &mut String, c: char)
    ensures
        final(s)@ == old(s)@.push(c),
{
    s.push(c);
}

/// The characters of `s`.
pub fn chars_of(s: &str) -> (res: Vec<char>)
    ensures
        res@ == s@,
{
    let mut res: Vec<char> = Vec::new();
    for c in it: s.chars()
        invariant
            res@ == it.seq().take(it.index()),
    {
        res.push(c);
    }
    res
}

/// The string made of the characters `v[from..to]`.
pub fn string_from_chars(v: &[char], from: usize, to: usize) -> (res: String)
    requires
        from <= to <= v@.len(),
    ensures
        res@ == v@.subrange(from as int, to as int),
{
    let mut res = String::new();
    let mut i = from;
    while i < to
        invariant
            from <= i <= to <= v@.len(),
            res@ == v@.subrange(from as int, i as int),
        decreases to - i,
    {
        push_char(&mut res, v[i]);
        assert(v@.subrange(from as int, i + 1) == v@.subrange(from as int, i as int).push(
            v@[i as int],
        ));
        i = i + 1;
    }
    res
}

/// Appends `t` to `s`.
pub fn append_str(s: &mut String, t: &str)
    ensures
        final(s)@ == old(s)@ + t@,
{
    for c in it: t.chars()
        invariant
            s@ == old(s)@ + it.seq().take(it.index()),
    {
        push_char(s, c);
        assert(old(s)@ + it.seq().take(it.index() + 1) == (old(s)@ + it.seq().take(
            it.index(),
        )).push(c));
    }
}

/// Appends `c` to `s`.
pub fn append_char(s: &mut String, c: char)
    ensures
        final(s)@ == old(s)@.push(c),
{
    push_char(s, c);
}

/// The copy of `t` as an owned string.
pub fn owned(t: &str) -> (res: String)
    ensures
        res@ == t@,
{
    let mut res = String::new();
    append_str(&mut res, t);
    res
}

/// Whether `a` and `b` are the same text.
pub fn same_text(a: &str, b: &str) -> (res: bool)
    ensures
        res == (a@ == b@),
{
    let x = chars_of(a);
    let y = chars_of(b);
    if x.len() != y.len() {
        return false;
    }
    let mut i: usize = 0;
    while i < x.len()
        invariant
            x@ == a@,
            y@ == b@,
            x@.len() == y@.len(),
            i <= x@.len(),
            forall|m: int| 0 <= m < i ==> x@[m] == y@[m],
        decreases x.len() - i,
    {
        if x[i] != y[i] {
            return false;
        }
        i = i + 1;
    }
    assert(x@ =~= y@);
    true
}

/// Whether `pat` occurs in `s` at position `i`.
pub fn matches_at(s: &[char], pat: &[char], i: usize) -> (res: bool)
    ensures
        res == occurs_at(s@, pat@, i as int),
{
    if i > s.len() || pat.len() > s.len() - i {
        return false;
    }
    let mut k: usize = 0;
    while k < pat.len()
        invariant
            i + pat.len() <= s.len(),
            s@.len() == s.len(),
            pat@.len() == pat.len(),
            k <= pat@.len(),
            forall|m: int| 0 <= m < k ==> s@[i + m] == pat@[m],
        decreases pat.len() - k,
    {
        if s[i + k] != pat[k] {
            assert(s@.subrange(i as int, i + pat@.len())[k as int] != pat@[k as int]);
            return false;
        }
        k = k + 1;
    }
    assert(s@.subrange(i as int, i + pat@.len()) =~= pat@);
    true
}

/// The leftmost occurrence of `pat` in `s` at or after `start`.
pub fn find_from(s: &[char], pat: &[char], start: usize) -> (res: Option<usize>)
    requires
        start <= s@.len(),
    ensures
        match res {
            Some(k) => start <= k && first_occurrence(s@.skip(start as int), pat@) == Some(
                k - start,
            ),
            None => first_occurrence(s@.skip(start as int), pat@).is_none(),
        },
{
    let ghost rest = s@.skip(start as int);
    let mut i = start;
    loop
        invariant
            start <= i <= s@.len(),
            s@.len() == s.len(),
            rest == s@.skip(start as int),
            forall|j: int| 0 <= j < i - start ==> !occurs_at(rest, pat@, j),
        ensures
            i == s@.len(),
            forall|j: int| 0 <= j <= i - start ==> !occurs_at(rest, pat@, j),
        decreases s.len() - i,
    {
        let found = matches_at(s, pat, i);
        proof {
            lemma_occurs_shift(s@, pat@, start as int, i - start);
        }
        if found {
            proof {
                lemma_first_occurrence_is(rest, pat@, i - start);
            }
            return Some(i);
        }
        if i == s.len() {
            break;
        }
        i = i + 1;
    }
    proof {
        assert forall|j: int| 0 <= j implies !occurs_at(rest, pat@, j) by {
            if j > i - start {
                assert(j > rest.len());
            }
        }
        lemma_no_occurrence(rest, pat@);
    }
    None
}

/// Occurrences in a suffix are occurrences in the whole, shifted.
proof fn lemma_occurs_shift(s: Seq<char>, pat: Seq<char>, start: int, j: int)
    requires
        0 <= start <= s.len(),
        0 <= j,
    ensures
        occurs_at(s.skip(start), pat, j) <==> occurs_at(s, pat, start + j),
{
    if j + pat.len() <= s.len() - start {
        assert(s.skip(start).subrange(j, j + pat.len()) =~= s.subrange(
            start + j,
            start + j + pat.len(),
        ));
    }
}

/// The text before and after the first occurrence of `pat` in `s`.
pub fn split_once_chars(s: &[char], pat: &[char]) -> (res: Option<(String, String)>)
    ensures
        match res {
            Some((a, b)) => split_once(s@, pat@) == Some((a@, b@)),
            None => split_once(s@, pat@).is_none(),
        },
{
    match find_from(s, pat, 0) {
        Some(i) => {
            assert(s@.skip(0) =~= s@);
            assert(occurs_at(s@, pat@, i as int));
            assert(s@.len() == s.len() && pat@.len() == pat.len());
            let a = string_from_chars(s, 0, i);
            let b = string_from_chars(s, i + pat.len(), s.len());
            assert(s@.subrange(0, i as int) =~= s@.take(i as int));
            assert(s@.subrange(i + pat@.len(), s@.len() as int) =~= s@.skip(i + pat@.len()));
            Some((a, b))
        },
        None => {
            assert(s@.skip(0) =~= s@);
            None
        },
    }
}

/// The second piece of `s` split at `pat` (what `s.split(pat).nth(1)` gives).
pub fn second_piece_chars(s: &[char], pat: &[char]) -> (res: Option<String>)
    ensures
        match res {
            Some(p) => second_piece(s@, pat@) == Some(p@),
            None => second_piece(s@, pat@).is_none(),
        },
{
    assert(s@.skip(0) =~= s@);
    match find_from(s, pat, 0) {
        Some(i) => {
            assert(occurs_at(s@, pat@, i as int));
            assert(s@.len() == s.len() && pat@.len() == pat.len());
            let start = i + pat.len();
            let ghost rest = s@.skip(start as int);
            match find_from(s, pat, start) {
                Some(j) => {
                    assert(s@.subrange(start as int, j as int) =~= rest.take(j - start));
                    Some(string_from_chars(s, start, j))
                },
                None => {
                    assert(s@.subrange(start as int, s@.len() as int) =~= rest);
                    Some(string_from_chars(s, start, s.len()))
                },
            }
        },
        None => None,
    }
}

/// The pieces of `s` between the occurrences of `c`, as positions:
/// piece `k` is `s[res[k].0 .. res[k].1]`.
pub fn split_char_bounds(s: &[char], c: char) -> (res: Vec<(usize, usize)>)
    ensures
        res@.len() == split_char(s@, c).len(),
        forall|k: int|
            0 <= k < res@.len() ==> {
                &&& (#[trigger] res@[k]).0 <= res@[k].1 <= s@.len()
                &&& s@.subrange(res@[k].0 as int, res@[k].1 as int) == split_char(s@, c)[k]
            },
{
    let mut res: Vec<(usize, usize)> = Vec::new();
    let mut start: usize = 0;
    let mut i: usize = 0;
    assert(s@.skip(0) =~= s@);
    assert(res@.map_values(|b: (usize, usize)| s@.subrange(b.0 as int, b.1 as int)) + split_char(
        s@,
        c,
    ) =~= split_char(s@, c));
    while i < s.len()
        invariant
            start <= i <= s@.len(),
            forall|m: int| start <= m < i ==> s@[m] != c,
            split_char(s@, c) == res@.map_values(
                |b: (usize, usize)| s@.subrange(b.0 as int, b.1 as int),
            ) + split_char(s@.skip(start as int), c),
            forall|k: int|
                0 <= k < res@.len() ==> (#[trigger] res@[k]).0 <= res@[k].1 <= start,
        decreases s.len() - i,
    {
        if s[i] == c {
            proof {
                let piece = s@.subrange(start as int, i as int);
                let rest = s@.skip(i + 1);
                assert(s@.skip(start as int) =~= piece.push(c) + rest);
                lemma_split_char_cons(piece, c, rest);
                assert(res@.push((start, i)).map_values(
                    |b: (usize, usize)| s@.subrange(b.0 as int, b.1 as int),
                ) =~= res@.map_values(|b: (usize, usize)| s@.subrange(b.0 as int, b.1 as int)).push(
                    piece,
                ));
            }
            res.push((start, i));
            start = i + 1;
        }
        i = i + 1;
    }
    proof {
        let last = s@.skip(start as int);
        lemma_split_char_none(last, c);
        assert(last =~= s@.subrange(start as int, s@.len() as int));
        assert(res@.push((start, s.len())).map_values(
            |b: (usize, usize)| s@.subrange(b.0 as int, b.1 as int),
        ) =~= res@.map_values(|b: (usize, usize)| s@.subrange(b.0 as int, b.1 as int)).push(last));
    }
    res.push((start, s.len()));
    proof {
        let f = |b: (usize, usize)| s@.subrange(b.0 as int, b.1 as int);
        assert forall|k: int| 0 <= k < res@.len() implies {
            &&& (#[trigger] res@[k]).0 <= res@[k].1 <= s@.len()
            &&& s@.subrange(res@[k].0 as int, res@[k].1 as int) == split_char(s@, c)[k]
        } by {
            assert(res@.map_values(f)[k] == f(res@[k]));
        }
    }
    res
}

/// Whether `c` is white space (`char::is_whitespace`).
pub fn is_white_space_char(c: char) -> (res: bool)
    ensures
        res == is_white_space(c),
{
    ('\u{9}' <= c && c <= '\u{d}') || c == ' ' || c == '\u{85}' || c == '\u{a0}' || c
        == '\u{1680}' || ('\u{2000}' <= c && c <= '\u{200a}') || c == '\u{2028}' || c
        == '\u{2029}' || c == '\u{202f}' || c == '\u{205f}' || c == '\u{3000}'
}

proof fn lemma_trim_start_skip(s: Seq<char>, a: int)
    requires
        0 <= a <= s.len(),
        forall|m: int| 0 <= m < a ==> is_white_space(s[m]),
    ensures
        trim_start(s) == trim_start(s.skip(a)),
    decreases a,
{
    if a > 0 {
        assert(s.drop_first().skip(a - 1) =~= s.skip(a));
        assert forall|m: int| 0 <= m < a - 1 implies is_white_space(s.drop_first()[m]) by {
            assert(s.drop_first()[m] == s[m + 1]);
        }
        lemma_trim_start_skip(s.drop_first(), a - 1);
    } else {
        assert(s.skip(0) =~= s);
    }
}

proof fn lemma_trim_end_take(s: Seq<char>, b: int)
    requires
        0 <= b <= s.len(),
        forall|m: int| b <= m < s.len() ==> is_white_space(s[m]),
    ensures
        trim_end(s) == trim_end(s.take(b)),
    decreases s.len() - b,
{
    if b < s.len() {
        assert(s.drop_last().take(b) =~= s.take(b));
        assert forall|m: int| b <= m < s.drop_last().len() implies is_white_space(
            s.drop_last()[m],
        ) by {
            assert(s.drop_last()[m] == s[m]);
        }
        lemma_trim_end_take(s.drop_last(), b);
    } else {
        assert(s.take(b) =~= s);
    }
}

/// `s` without leading and trailing white space, as positions `s[res.0..res.1]`.
pub fn trim_bounds(s: &[char]) -> (res: (usize, usize))
    ensures
        res.0 <= res.1 <= s@.len(),
        s@.subrange(res.0 as int, res.1 as int) == trim(s@),
{
    let mut a: usize = 0;
    while a < s.len() && is_white_space_char(s[a])
        invariant
            a <= s@.len(),
            forall|m: int| 0 <= m < a ==> is_white_space(s@[m]),
        decreases s.len() - a,
    {
        a = a + 1;
    }
    proof {
        lemma_trim_start_skip(s@, a as int);
        if a < s@.len() {
            assert(s@.skip(a as int)[0] == s@[a as int]);
        }
    }
    let ghost t = s@.skip(a as int);
    assert(trim_start(s@) == t);
    let mut b: usize = s.len();
    while b > a && is_white_space_char(s[b - 1])
        invariant
            a <= b <= s@.len(),
            t == s@.skip(a as int),
            forall|m: int| b <= m < s@.len() ==> is_white_space(s@[m]),
        decreases b,
    {
        b = b - 1;
    }
    proof {
        let bb = b - a;
        assert forall|m: int| bb <= m < t.len() implies is_white_space(t[m]) by {
            assert(t[m] == s@[m + a]);
        }
        lemma_trim_end_take(t, bb);
        let u = t.take(bb);
        if u.len() > 0 {
            assert(u.last() == s@[b - 1]);
        }
        assert(u =~= s@.subrange(a as int, b as int));
    }
    (a, b)
}

/// `s` without leading and trailing white space.
pub fn trimmed(s: &str) -> (res: String)
    ensures
        res@ == trim(s@),
{
    let chars = chars_of(s);
    let (a, b) = trim_bounds(chars.as_slice());
    string_from_chars(chars.as_slice(), a, b)
}

/// Whether `s` is empty once trimmed (`s.trim().is_empty()`).
pub fn is_blank_str(s: &str) -> (res: bool)
    ensures
        res == (trim(s@).len() == 0),
{
    let chars = chars_of(s);
    let (a, b) = trim_bounds(chars.as_slice());
    a == b
}

/// The characters of `d` as an ASCII digit, for `d < 10`.
pub fn digit_char_of(d: usize) -> (c: char)
    requires
        d < 10,
    ensures
        c == digit_char(d as nat),
{
    if d == 0 { '0' }
    else if d == 1 { '1' }
    else if d == 2 { '2' }
    else if d == 3 { '3' }
    else if d == 4 { '4' }
    else if d == 5 { '5' }
    else if d == 6 { '6' }
    else if d == 7 { '7' }
    else if d == 8 { '8' }
    else { '9' }
}

/// Appends the decimal notation of `n` to `s`.
pub fn append_decimal(s: &mut String, n: usize)
    ensures
        final(s)@ == old(s)@ + decimal(n as nat),
    decreases n,
{
    if n < 10 {
        push_char(s, digit_char_of(n));
        assert(old(s)@ + seq![digit_char(n as nat)] =~= old(s)@.push(digit_char(n as nat)));
    } else {
        append_decimal(s, n / 10);
        push_char(s, digit_char_of(n % 10));
        assert(old(s)@ + decimal((n / 10) as nat).push(digit_char((n % 10) as nat)) =~= (old(s)@
            + decimal((n / 10) as nat)).push(digit_char((n % 10) as nat)));
    }
}

/// The value of an ASCII digit.
fn digit_value(c: char) -> (d: u32)
    requires
        is_ascii_digit(c),
    ensures
        d == c as int - '0' as int,
{
    (c as u32) - ('0' as u32)
}

/// Reads a decimal `i32` as `str::parse::<i32>` does.
pub fn parse_i32(s: &[char]) -> (res: Option<i32>)
    ensures
        res == parse_i32_spec(s@),
{
    let negative = s.len() > 0 && s[0] == '-';
    let start: usize = if s.len() > 0 && (s[0] == '-' || s[0] == '+') { 1 } else { 0 };
    let ghost body = if s@.len() > 0 && (s@[0] == '-' || s@[0] == '+') {
        s@.drop_first()
    } else {
        s@
    };
    assert(body =~= s@.skip(start as int));
    if start == s.len() {
        return None;
    }
    let limit: i64 = if negative { 2147483648 } else { 2147483647 };
    let mut value: i64 = 0;
    let mut i = start;
    while i < s.len()
        invariant
            start <= i <= s@.len(),
            body == s@.skip(start as int),
            body == (if s@.len() > 0 && (s@[0] == '-' || s@[0] == '+') {
                s@.drop_first()
            } else {
                s@
            }),
            negative == (s@.len() > 0 && s@[0] == '-'),
            limit == (if negative { 2147483648i64 } else { 2147483647i64 }),
            all_ascii_digits(body.take(i - start)),
            value == digits_value(body.take(i - start)),
            0 <= value <= limit,
        decreases s.len() - i,
    {
        let c = s[i];
        if !('0' <= c && c <= '9') {
            proof {
                assert(body[i - start] == c);
                assert(!is_ascii_digit(body[i - start]));
            }
            return None;
        }
        let d = digit_value(c);
        proof {
            assert(body.take(i - start + 1).drop_last() =~= body.take(i - start));
            assert(body.take(i - start + 1).last() == c);
            assert forall|m: int| 0 <= m < i - start + 1 implies is_ascii_digit(
                #[trigger] body.take(i - start + 1)[m],
            ) by {
                if m < i - start {
                    assert(body.take(i - start + 1)[m] == body.take(i - start)[m]);
                }
            }
        }
        let next = value * 10 + d as i64;
        if next > limit {
            proof {
                let k = i - start + 1;
                assert(digits_value(body.take(k)) == next);
                if all_ascii_digits(body) {
                    lemma_digits_value_grows(body, k);
                }
            }
            return None;
        }
        value = next;
        i = i + 1;
    }
    assert(body.take(i - start) =~= body);
    if negative {
        Some((-value) as i32)
    } else {
        Some(value as i32)
    }
}

} // verus!
