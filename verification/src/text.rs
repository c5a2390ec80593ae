//! Verified string helpers: equality, ordering, substring search, trimming,
//! splitting and joining, decimal rendering, and the case-folding wrapper.
//!
//! Exec functions here mirror recursive spec functions, so callers' contracts
//! can speak about character sequences directly.

use vstd::prelude::*;

verus! {

/// The characters this crate treats as word separators and trimmable space.
pub open spec fn is_space(c: char) -> bool {
    c == ' ' || c == '\t' || c == '\n' || c == '\r'
}

/// Exec test matching `is_space`.
pub fn is_space_char(c: char) -> (r: bool)
    ensures
        r == is_space(c),
{
    c == ' ' || c == '\t' || c == '\n' || c == '\r'
}

/// True when every character of `s` is space (the empty sequence is blank).
pub open spec fn is_blank(s: Seq<char>) -> bool {
    forall|i: int| 0 <= i < s.len() ==> is_space(#[trigger] s[i])
}

/// Exec test matching `is_blank` on a character vector.
pub fn chars_blank(v: &Vec<char>) -> (r: bool)
    ensures
        r == is_blank(v@),
{
    let mut i: usize = 0;
    while i < v.len()
        invariant
            0 <= i <= v@.len(),
            forall|j: int| 0 <= j < i ==> is_space(#[trigger] v@[j]),
        decreases v@.len() - i,
    {
        if !is_space_char(v[i]) {
            return false;
        }
        i = i + 1;
    }
    true
}

/// Copy the characters of a `&str` into a vector.
pub fn chars_of_str(s: &str) -> (r: Vec<char>)
    ensures
        r@ == s@,
{
    let n = s.unicode_len();
    let mut v: Vec<char> = Vec::new();
    let mut i: usize = 0;
    while i < n
        invariant
            n == s@.len(),
            0 <= i <= n,
            v@ == s@.take(i as int),
        decreases n - i,
    {
        let c = s.get_char(i);
        v.push(c);
        assert(v@ =~= s@.take(i + 1 as int));
        i = i + 1;
    }
    assert(v@ =~= s@);
    v
}

/// Relies on `String::push`: appends one character to the string.
#[verifier::external_body]
pub fn push_char(s: &mut String, c: char)
    ensures
        final(s)@ == old(s)@.push(c),
{
    s.push(c)
}

/// Build a `String` holding exactly the given characters.
pub fn string_from_chars(v: &Vec<char>) -> (r: String)
    ensures
        r@ == v@,
{
    let mut s = String::new();
    let mut i: usize = 0;
    while i < v.len()
        invariant
            0 <= i <= v@.len(),
            s@ == v@.take(i as int),
        decreases v@.len() - i,
    {
        push_char(&mut s, v[i]);
        assert(s@ =~= v@.take(i + 1 as int));
        i = i + 1;
    }
    assert(s@ =~= v@);
    s
}

/// A fresh string with the same characters.
pub fn copy_string(s: &str) -> (r: String)
    ensures
        r@ == s@,
{
    let v = chars_of_str(s);
    string_from_chars(&v)
}

/// Character-wise string equality.
pub fn str_eq(a: &str, b: &str) -> (r: bool)
    ensures
        r == (a@ == b@),
{
    let n = a.unicode_len();
    let m = b.unicode_len();
    if n != m {
        return false;
    }
    let mut i: usize = 0;
    while i < n
        invariant
            n == a@.len(),
            n == b@.len(),
            0 <= i <= n,
            forall|j: int| 0 <= j < i ==> a@[j] == b@[j],
        decreases n - i,
    {
        if a.get_char(i) != b.get_char(i) {
            return false;
        }
        i = i + 1;
    }
    assert(a@ =~= b@);
    true
}

/// What the case-folded form of a character sequence is; fixed by
/// `str::to_lowercase`, which depends on its argument alone.
pub uninterp spec fn lower_of(s: Seq<char>) -> Seq<char>;

/// Relies on `str::to_lowercase`: the result is a pure function of the
/// characters; an empty string stays empty.
#[verifier::external_body]
pub fn to_lower(s: &str) -> (r: String)
    ensures
        r@ == lower_of(s@),
        s@.len() == 0 ==> r@.len() == 0,
{
    s.to_lowercase()
}

/// `p` occurs contiguously somewhere in `s`.
pub open spec fn contains_seq(s: Seq<char>, p: Seq<char>) -> bool {
    exists|i: int| 0 <= i && i + p.len() <= s.len() && p == #[trigger] s.subrange(i, i + p.len())
}

fn match_at(s: &str, p: &str, at: usize, n: usize, m: usize) -> (r: bool)
    requires
        n == s@.len(),
        m == p@.len(),
        at + m <= n,
    ensures
        r == (p@ == s@.subrange(at as int, at + m)),
{
    let mut k: usize = 0;
    while k < m
        invariant
            n == s@.len(),
            m == p@.len(),
            at + m <= n,
            0 <= k <= m,
            forall|j: int| 0 <= j < k ==> p@[j] == s@[at + j],
        decreases m - k,
    {
        if p.get_char(k) != s.get_char(at + k) {
            assert(p@[k as int] != s@.subrange(at as int, at + m)[k as int]);
            return false;
        }
        k = k + 1;
    }
    assert(p@ =~= s@.subrange(at as int, at + m));
    true
}

/// Case-sensitive substring search matching `contains_seq`.
pub fn str_contains(s: &str, p: &str) -> (r: bool)
    ensures
        r == contains_seq(s@, p@),
{
    let n = s.unicode_len();
    let m = p.unicode_len();
    if m > n {
        return false;
    }
    if m == 0 {
        assert(p@ =~= s@.subrange(0, 0 + p@.len() as int));
        assert(contains_seq(s@, p@));
        return true;
    }
    let mut i: usize = 0;
    while i <= n - m
        invariant
            n == s@.len(),
            m == p@.len(),
            0 < m <= n,
            0 <= i <= n - m + 1,
            forall|j: int| 0 <= j < i ==> p@ != #[trigger] s@.subrange(j, j + m),
        decreases n - m + 1 - i,
    {
        if match_at(s, p, i, n, m) {
            return true;
        }
        i = i + 1;
    }
    false
}

/// Strict lexicographic order on character sequences by code point, the
/// order `String` comparison gives on valid text.
pub open spec fn str_lt_seq(a: Seq<char>, b: Seq<char>) -> bool
    decreases a.len(),
{
    if b.len() == 0 {
        false
    } else if a.len() == 0 {
        true
    } else if a[0] == b[0] {
        str_lt_seq(a.skip(1), b.skip(1))
    } else {
        (a[0] as u32) < (b[0] as u32)
    }
}

/// Exec comparison matching `str_lt_seq`.
pub fn str_lt(a: &str, b: &str) -> (r: bool)
    ensures
        r == str_lt_seq(a@, b@),
{
    let n = a.unicode_len();
    let m = b.unicode_len();
    proof {
        assert(a@.skip(0) =~= a@);
        assert(b@.skip(0) =~= b@);
    }
    let mut i: usize = 0;
    loop
        invariant
            n == a@.len(),
            m == b@.len(),
            0 <= i <= n,
            0 <= i <= m,
            str_lt_seq(a@, b@) == str_lt_seq(a@.skip(i as int), b@.skip(i as int)),
        decreases n - i,
    {
        if i >= n || i >= m {
            return n < m;
        }
        let ca = a.get_char(i);
        let cb = b.get_char(i);
        if ca != cb {
            assert(a@.skip(i as int)[0] == ca);
            assert(b@.skip(i as int)[0] == cb);
            return (ca as u32) < (cb as u32);
        }
        proof {
            assert(a@.skip(i as int).skip(1) =~= a@.skip(i + 1));
            assert(b@.skip(i as int).skip(1) =~= b@.skip(i + 1));
        }
        i = i + 1;
    }
}

/// The digit character for a value in 0..10.
pub open spec fn digit_char(d: int) -> char {
    if d == 0 { '0' } else if d == 1 { '1' } else if d == 2 { '2' } else if d == 3 { '3' }
    else if d == 4 { '4' } else if d == 5 { '5' } else if d == 6 { '6' } else if d == 7 { '7' }
    else if d == 8 { '8' } else { '9' }
}

fn digit_char_exec(d: u8) -> (r: char)
    requires
        d < 10,
    ensures
        r == digit_char(d as int),
{
    if d == 0 { '0' } else if d == 1 { '1' } else if d == 2 { '2' } else if d == 3 { '3' }
    else if d == 4 { '4' } else if d == 5 { '5' } else if d == 6 { '6' } else if d == 7 { '7' }
    else if d == 8 { '8' } else { '9' }
}

/// Decimal rendering of a byte value, without leading zeros.
pub open spec fn dec_of_u8(n: u8) -> Seq<char> {
    if n < 10 {
        seq![digit_char(n as int)]
    } else if n < 100 {
        seq![digit_char(n as int / 10), digit_char(n as int % 10)]
    } else {
        seq![
            digit_char(n as int / 100),
            digit_char((n as int / 10) % 10),
            digit_char(n as int % 10),
        ]
    }
}

/// The decimal digits of a byte value, matching `dec_of_u8`.
pub fn dec_chars_u8(n: u8) -> (v: Vec<char>)
    ensures
        v@ == dec_of_u8(n),
{
    let mut v: Vec<char> = Vec::new();
    if n >= 100 {
        v.push(digit_char_exec(n / 100));
    }
    if n >= 10 {
        v.push(digit_char_exec((n / 10) % 10));
    }
    v.push(digit_char_exec(n % 10));
    assert(v@ =~= dec_of_u8(n));
    v
}

/// Exec decimal rendering matching `dec_of_u8`.
pub fn u8_to_string(n: u8) -> (r: String)
    ensures
        r@ == dec_of_u8(n),
{
    let v = dec_chars_u8(n);
    string_from_chars(&v)
}

/// The sequence with leading space characters removed.
pub open spec fn trim_front(s: Seq<char>) -> Seq<char>
    decreases s.len(),
{
    if s.len() > 0 && is_space(s[0]) {
        trim_front(s.skip(1))
    } else {
        s
    }
}

/// The sequence with trailing space characters removed.
pub open spec fn trim_back(s: Seq<char>) -> Seq<char>
    decreases s.len(),
{
    if s.len() > 0 && is_space(s.last()) {
        trim_back(s.drop_last())
    } else {
        s
    }
}

/// The sequence with space characters removed from both ends.
pub open spec fn trim_seq(s: Seq<char>) -> Seq<char> {
    trim_back(trim_front(s))
}

proof fn lemma_trim_front_skip(s: Seq<char>, i: int)
    requires
        0 <= i <= s.len(),
        forall|j: int| 0 <= j < i ==> is_space(#[trigger] s[j]),
        i == s.len() || !is_space(s[i]),
    ensures
        trim_front(s) == s.skip(i),
    decreases i,
{
    if i == 0 {
        assert(s.skip(0) =~= s);
    } else {
        assert(is_space(s[0]));
        lemma_trim_front_skip(s.skip(1), i - 1);
        assert(s.skip(1).skip(i - 1) =~= s.skip(i));
    }
}

proof fn lemma_trim_back_take(s: Seq<char>, i: int)
    requires
        0 <= i <= s.len(),
        forall|j: int| i <= j < s.len() ==> is_space(#[trigger] s[j]),
        i == 0 || !is_space(s[i - 1]),
    ensures
        trim_back(s) == s.take(i),
    decreases s.len() - i,
{
    if i == s.len() {
        assert(s.take(i) =~= s);
    } else {
        assert(is_space(s.last()));
        lemma_trim_back_take(s.drop_last(), i);
        assert(s.drop_last().take(i) =~= s.take(i));
    }
}

/// Trim space characters from both ends of a character vector.
pub fn trim_chars(v: &Vec<char>) -> (r: Vec<char>)
    ensures
        r@ == trim_seq(v@),
{
    let n = v.len();
    let mut start: usize = 0;
    while start < n && is_space_char(v[start])
        invariant
            n == v@.len(),
            0 <= start <= n,
            forall|j: int| 0 <= j < start ==> is_space(#[trigger] v@[j]),
        decreases n - start,
    {
        start = start + 1;
    }
    proof {
        lemma_trim_front_skip(v@, start as int);
    }
    let mut end: usize = n;
    while end > start && is_space_char(v[end - 1])
        invariant
            n == v@.len(),
            start <= end <= n,
            forall|j: int| end <= j < n ==> is_space(#[trigger] v@[j]),
        decreases end,
    {
        end = end - 1;
    }
    let mut r: Vec<char> = Vec::new();
    let mut i: usize = start;
    while i < end
        invariant
            n == v@.len(),
            start <= i <= end <= n,
            r@ == v@.subrange(start as int, i as int),
        decreases end - i,
    {
        r.push(v[i]);
        assert(r@ =~= v@.subrange(start as int, i + 1 as int));
        i = i + 1;
    }
    proof {
        let trimmed = v@.skip(start as int);
        if end == start {
            assert(forall|j: int| (start as int) <= j < n ==> is_space(#[trigger] v@[j]));
            lemma_trim_back_take(trimmed, 0);
        } else {
            assert(!is_space(v@[end - 1]));
            lemma_trim_back_take(trimmed, end - start);
        }
        assert(trimmed.take(end - start) =~= v@.subrange(start as int, end as int));
        assert(r@ =~= trim_seq(v@));
    }
    r
}

/// Split on a separator character, accumulator form: `cur` is the piece
/// being built and `done` the pieces already finished.
pub open spec fn split_acc(
    s: Seq<char>,
    sep: char,
    cur: Seq<char>,
    done: Seq<Seq<char>>,
) -> Seq<Seq<char>>
    decreases s.len(),
{
    if s.len() == 0 {
        done.push(cur)
    } else if s[0] == sep {
        split_acc(s.skip(1), sep, Seq::empty(), done.push(cur))
    } else {
        split_acc(s.skip(1), sep, cur.push(s[0]), done)
    }
}

/// The pieces of `s` between occurrences of `sep`; never empty as a list.
pub open spec fn split_on(s: Seq<char>, sep: char) -> Seq<Seq<char>> {
    split_acc(s, sep, Seq::empty(), Seq::empty())
}

/// Exec split matching `split_on`.
pub fn split_chars(v: &Vec<char>, sep: char) -> (r: Vec<Vec<char>>)
    ensures
        r.deep_view() == split_on(v@, sep),
{
    let n = v.len();
    let mut done: Vec<Vec<char>> = Vec::new();
    let mut cur: Vec<char> = Vec::new();
    proof {
        assert(v@.skip(0) =~= v@);
        assert(cur@ =~= Seq::<char>::empty());
        assert(done.deep_view() =~~= Seq::<Seq<char>>::empty());
    }
    let mut i: usize = 0;
    while i < n
        invariant
            n == v@.len(),
            0 <= i <= n,
            split_on(v@, sep) == split_acc(v@.skip(i as int), sep, cur@, done.deep_view()),
        decreases n - i,
    {
        let c = v[i];
        proof {
            assert(v@.skip(i as int)[0] == v@[i as int]);
            assert(v@.skip(i as int).skip(1) =~= v@.skip(i + 1));
        }
        if c == sep {
            let ghost dv = done.deep_view();
            let ghost cv = cur@;
            done.push(cur);
            cur = Vec::new();
            proof {
                assert(done.deep_view() =~~= dv.push(cv));
                assert(cur@ =~= Seq::<char>::empty());
            }
        } else {
            cur.push(c);
        }
        i = i + 1;
    }
    assert(v@.skip(n as int) =~= Seq::<char>::empty());
    let ghost dv = done.deep_view();
    let ghost cv = cur@;
    done.push(cur);
    proof {
        assert(done.deep_view() =~~= dv.push(cv));
    }
    done
}

/// Trim space characters from the end of a character vector.
pub fn trim_end_chars(v: &Vec<char>) -> (r: Vec<char>)
    ensures
        r@ == trim_back(v@),
{
    let n = v.len();
    let mut end: usize = n;
    while end > 0 && is_space_char(v[end - 1])
        invariant
            n == v@.len(),
            0 <= end <= n,
            forall|j: int| end <= j < n ==> is_space(#[trigger] v@[j]),
        decreases end,
    {
        end = end - 1;
    }
    let mut r: Vec<char> = Vec::new();
    let mut i: usize = 0;
    while i < end
        invariant
            n == v@.len(),
            0 <= i <= end <= n,
            r@ == v@.take(i as int),
        decreases end - i,
    {
        r.push(v[i]);
        assert(r@ =~= v@.take(i + 1 as int));
        i = i + 1;
    }
    proof {
        if end == 0 {
            lemma_trim_back_take(v@, 0);
        } else {
            assert(!is_space(v@[end - 1]));
            lemma_trim_back_take(v@, end as int);
        }
    }
    r
}

/// Each piece with its trailing spaces removed.
pub open spec fn trim_ends(pieces: Seq<Seq<char>>) -> Seq<Seq<char>>
    decreases pieces.len(),
{
    if pieces.len() == 0 {
        Seq::empty()
    } else {
        trim_ends(pieces.drop_last()).push(trim_back(pieces.last()))
    }
}

/// Each piece trimmed on both ends, blank pieces dropped.
pub open spec fn collect_pieces(pieces: Seq<Seq<char>>) -> Seq<Seq<char>>
    decreases pieces.len(),
{
    if pieces.len() == 0 {
        Seq::empty()
    } else {
        let rest = collect_pieces(pieces.drop_last());
        let t = trim_seq(pieces.last());
        if t.len() > 0 {
            rest.push(t)
        } else {
            rest
        }
    }
}

/// A pasted block flattened to one line: lines trimmed at the end and
/// joined with single spaces.
pub open spec fn flatten_line(s: Seq<char>) -> Seq<char> {
    join_with(trim_ends(split_on(s, '\n')), " "@)
}

/// A pasted block turned into a label list: lines trimmed, blank lines
/// dropped, joined with comma-space.
pub open spec fn flatten_labels(s: Seq<char>) -> Seq<char> {
    join_with(collect_pieces(split_on(s, '\n')), ", "@)
}

/// Exec flattening matching `flatten_line`.
pub fn flatten_to_line(text: &str) -> (r: String)
    ensures
        r@ == flatten_line(text@),
{
    let chars = chars_of_str(text);
    let pieces = split_chars(&chars, '\n');
    let mut trimmed: Vec<Vec<char>> = Vec::new();
    let mut i: usize = 0;
    proof {
        assert(trimmed.deep_view() =~~= trim_ends(pieces.deep_view().take(0)));
    }
    while i < pieces.len()
        invariant
            0 <= i <= pieces@.len(),
            pieces.deep_view().len() == pieces@.len(),
            trimmed.deep_view() == trim_ends(pieces.deep_view().take(i as int)),
        decreases pieces@.len() - i,
    {
        let ghost pv = pieces.deep_view();
        let ghost tv = trimmed.deep_view();
        proof {
            assert(pieces@[i as int].deep_view() =~= pieces@[i as int]@);
            assert(pv[i as int] == pieces@[i as int].deep_view());
        }
        let t = trim_end_chars(&pieces[i]);
        trimmed.push(t);
        proof {
            assert(pv.take(i + 1).drop_last() =~= pv.take(i as int));
            assert(pv.take(i + 1).last() == pv[i as int]);
            assert(t.deep_view() =~= t@);
            assert(trimmed.deep_view() =~~= tv.push(trim_back(pv[i as int])));
        }
        i = i + 1;
    }
    proof {
        assert(pieces.deep_view().take(pieces@.len() as int) =~~= pieces.deep_view());
    }
    let mut sep: Vec<char> = Vec::new();
    sep.push(' ');
    assert(sep@ =~= " "@) by {
        reveal_strlit(" ");
    }
    let joined = join_chars(&trimmed, &sep);
    string_from_chars(&joined)
}

/// Exec flattening matching `flatten_labels`.
pub fn flatten_to_labels(text: &str) -> (r: String)
    ensures
        r@ == flatten_labels(text@),
{
    let chars = chars_of_str(text);
    let pieces = split_chars(&chars, '\n');
    let collected = collect_pieces_exec(&pieces);
    let mut sep: Vec<char> = Vec::new();
    sep.push(',');
    sep.push(' ');
    assert(sep@ =~= ", "@) by {
        reveal_strlit(", ");
    }
    let joined = join_chars(&collected, &sep);
    string_from_chars(&joined)
}

/// Trim every piece and drop the blank ones, matching `collect_pieces`.
pub fn collect_pieces_exec(pieces: &Vec<Vec<char>>) -> (r: Vec<Vec<char>>)
    ensures
        r.deep_view() == collect_pieces(pieces.deep_view()),
{
    let mut out: Vec<Vec<char>> = Vec::new();
    let mut i: usize = 0;
    proof {
        assert(out.deep_view() =~~= collect_pieces(pieces.deep_view().take(0)));
    }
    while i < pieces.len()
        invariant
            0 <= i <= pieces@.len(),
            pieces.deep_view().len() == pieces@.len(),
            out.deep_view() == collect_pieces(pieces.deep_view().take(i as int)),
        decreases pieces@.len() - i,
    {
        let ghost pv = pieces.deep_view();
        let ghost ov = out.deep_view();
        proof {
            assert(pv.take(i + 1).drop_last() =~= pv.take(i as int));
            assert(pv.take(i + 1).last() == pv[i as int]);
            assert(pieces@[i as int].deep_view() =~= pieces@[i as int]@);
            assert(pv[i as int] == pieces@[i as int].deep_view());
        }
        let t = trim_chars(&pieces[i]);
        if t.len() > 0 {
            proof {
                assert(t.deep_view() =~= t@);
            }
            out.push(t);
            proof {
                assert(out.deep_view() =~~= ov.push(trim_seq(pv[i as int])));
            }
        }
        i = i + 1;
    }
    proof {
        assert(pieces.deep_view().take(pieces@.len() as int) =~~= pieces.deep_view());
    }
    out
}

/// Join pieces with a separator sequence.
pub open spec fn join_with(parts: Seq<Seq<char>>, sep: Seq<char>) -> Seq<char>
    decreases parts.len(),
{
    if parts.len() == 0 {
        Seq::empty()
    } else if parts.len() == 1 {
        parts[0]
    } else {
        parts[0] + sep + join_with(parts.skip(1), sep)
    }
}

proof fn lemma_join_push(parts: Seq<Seq<char>>, sep: Seq<char>, x: Seq<char>)
    ensures
        parts.len() == 0 ==> join_with(parts.push(x), sep) == x,
        parts.len() > 0 ==> join_with(parts.push(x), sep) == join_with(parts, sep) + sep + x,
    decreases parts.len(),
{
    if parts.len() == 0 {
        assert(join_with(parts.push(x), sep) == parts.push(x)[0]);
        assert(parts.push(x)[0] == x);
    } else if parts.len() == 1 {
        let p = parts.push(x);
        assert(p.len() == 2);
        assert(p.skip(1) =~= seq![x]);
        assert(join_with(p.skip(1), sep) == x);
        assert(join_with(parts, sep) == parts[0]);
        assert(p[0] == parts[0]);
    } else {
        let p = parts.push(x);
        assert(p.skip(1) =~= parts.skip(1).push(x));
        lemma_join_push(parts.skip(1), sep, x);
        assert(join_with(parts, sep) == parts[0] + sep + join_with(parts.skip(1), sep));
        assert(join_with(p, sep) == p[0] + sep + join_with(p.skip(1), sep));
        assert(p[0] == parts[0]);
        assert(parts[0] + sep + (join_with(parts.skip(1), sep) + sep + x) =~= (parts[0] + sep
            + join_with(parts.skip(1), sep)) + sep + x);
    }
}

/// Join strings with a separator, matching `join_with` over the views.
pub fn join_strings(parts: &Vec<String>, sep: &str) -> (r: String)
    ensures
        r@ == join_with(parts.deep_view(), sep@),
{
    let sep_chars = chars_of_str(sep);
    let mut piece_chars: Vec<Vec<char>> = Vec::new();
    let mut i: usize = 0;
    proof {
        assert(piece_chars.deep_view() =~~= parts.deep_view().take(0));
    }
    while i < parts.len()
        invariant
            0 <= i <= parts@.len(),
            parts.deep_view().len() == parts@.len(),
            piece_chars.deep_view() == parts.deep_view().take(i as int),
        decreases parts@.len() - i,
    {
        let ghost pcv = piece_chars.deep_view();
        let cs = chars_of_str(parts[i].as_str());
        proof {
            assert(parts.deep_view()[i as int] == parts@[i as int].deep_view());
            assert(parts@[i as int].deep_view() =~= parts@[i as int]@);
            assert(cs.deep_view() =~= cs@);
        }
        piece_chars.push(cs);
        proof {
            assert(piece_chars.deep_view() =~~= pcv.push(cs@));
            assert(parts.deep_view().take(i + 1) =~~= parts.deep_view().take(i as int).push(
                parts.deep_view()[i as int],
            ));
            assert(piece_chars.deep_view() =~~= parts.deep_view().take(i + 1));
        }
        i = i + 1;
    }
    proof {
        assert(parts.deep_view().take(parts@.len() as int) =~~= parts.deep_view());
    }
    let joined = join_chars(&piece_chars, &sep_chars);
    string_from_chars(&joined)
}

/// Join a vector of character vectors with a separator, matching `join_with`.
pub fn join_chars(parts: &Vec<Vec<char>>, sep: &Vec<char>) -> (r: Vec<char>)
    ensures
        r@ == join_with(parts.deep_view(), sep@),
{
    let mut r: Vec<char> = Vec::new();
    let mut i: usize = 0;
    while i < parts.len()
        invariant
            0 <= i <= parts@.len(),
            parts.deep_view().len() == parts@.len(),
            r@ == join_with(parts.deep_view().take(i as int), sep@),
        decreases parts@.len() - i,
    {
        if i > 0 {
            let mut k: usize = 0;
            while k < sep.len()
                invariant
                    0 <= k <= sep@.len(),
                    r@ == join_with(parts.deep_view().take(i as int), sep@) + sep@.take(k as int),
                decreases sep@.len() - k,
            {
                r.push(sep[k]);
                assert(r@ =~= join_with(parts.deep_view().take(i as int), sep@) + sep@.take(
                    k + 1 as int,
                ));
                k = k + 1;
            }
            assert(sep@.take(sep@.len() as int) =~= sep@);
        }
        let piece = &parts[i];
        let ghost base = r@;
        let mut k: usize = 0;
        while k < piece.len()
            invariant
                0 <= k <= piece@.len(),
                piece@ == parts.deep_view()[i as int],
                i < parts.deep_view().len(),
                r@ == base + piece@.take(k as int),
            decreases piece@.len() - k,
        {
            r.push(piece[k]);
            assert(r@ =~= base + piece@.take(k + 1 as int));
            k = k + 1;
        }
        proof {
            assert(piece@.take(piece@.len() as int) =~= piece@);
            let pv = parts.deep_view();
            assert(pv.take(i + 1).drop_last() =~= pv.take(i as int));
            assert(pv.take(i + 1).last() == pv[i as int]);
            lemma_join_push(pv.take(i as int), sep@, pv[i as int]);
            assert(pv.take(i as int).push(pv[i as int]) =~= pv.take(i + 1));
        }
        i = i + 1;
    }
    assert(parts.deep_view().take(parts@.len() as int) =~= parts.deep_view());
    r
}

} // verus!
