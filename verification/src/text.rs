//! Character-level text operations: the views of strings are `Seq<char>`,
//! and every operation here is stated over those sequences.
use vstd::prelude::*;

verus! {

/// `char::is_whitespace`: the Unicode `White_Space` property.
pub open spec fn is_white_space(c: char) -> bool {
    ||| ('\u{9}' <= c && c <= '\u{d}')
    ||| c == ' '
    ||| c == '\u{85}'
    ||| c == '\u{a0}'
    ||| c == '\u{1680}'
    ||| ('\u{2000}' <= c && c <= '\u{200a}')
    ||| c == '\u{2028}'
    ||| c == '\u{2029}'
    ||| c == '\u{202f}'
    ||| c == '\u{205f}'
    ||| c == '\u{3000}'
}

/// `char::is_ascii_whitespace`.
pub open spec fn is_ascii_white_space(c: char) -> bool {
    c == ' ' || c == '\t' || c == '\n' || c == '\u{c}' || c == '\r'
}

/// The classes of characters that the trimming operations remove.
#[derive(Clone, Copy)]
pub enum CharClass {
    WhiteSpace,
    CommaOrAsciiSpace,
    Exactly(char),
}

pub open spec fn in_class(c: char, cls: CharClass) -> bool {
    match cls {
        CharClass::WhiteSpace => is_white_space(c),
        CharClass::CommaOrAsciiSpace => c == ',' || is_ascii_white_space(c),
        CharClass::Exactly(d) => c == d,
    }
}

pub fn char_in_class(c: char, cls: CharClass) -> (b: bool)
    ensures
        b == in_class(c, cls),
{
    match cls {
        CharClass::WhiteSpace => {
            ('\u{9}' <= c && c <= '\u{d}') || c == ' ' || c == '\u{85}' || c == '\u{a0}' || c
                == '\u{1680}' || ('\u{2000}' <= c && c <= '\u{200a}') || c == '\u{2028}' || c
                == '\u{2029}' || c == '\u{202f}' || c == '\u{205f}' || c == '\u{3000}'
        },
        CharClass::CommaOrAsciiSpace => {
            c == ',' || c == ' ' || c == '\t' || c == '\n' || c == '\u{c}' || c == '\r'
        },
        CharClass::Exactly(d) => c == d,
    }
}

/// Index of the first character at or after `i` that is not in `cls`.
pub open spec fn skip_fwd(s: Seq<char>, i: int, cls: CharClass) -> int
    decreases s.len() - i,
{
    if 0 <= i < s.len() && in_class(s[i], cls) {
        skip_fwd(s, i + 1, cls)
    } else {
        i
    }
}

/// Index just after the last character before `j` that is not in `cls`.
pub open spec fn skip_back(s: Seq<char>, j: int, cls: CharClass) -> int
    decreases j,
{
    if 0 < j <= s.len() && in_class(s[j - 1], cls) {
        skip_back(s, j - 1, cls)
    } else {
        j
    }
}

/// `str::trim_start_matches` for a class of characters.
pub open spec fn trim_start_class(s: Seq<char>, cls: CharClass) -> Seq<char> {
    s.skip(skip_fwd(s, 0, cls))
}

/// `str::trim_end_matches` for a class of characters.
pub open spec fn trim_end_class(s: Seq<char>, cls: CharClass) -> Seq<char> {
    s.take(skip_back(s, s.len() as int, cls))
}

/// `str::trim_start`.
pub open spec fn trim_start(s: Seq<char>) -> Seq<char> {
    trim_start_class(s, CharClass::WhiteSpace)
}

/// `str::trim`.
pub open spec fn trim(s: Seq<char>) -> Seq<char> {
    trim_end_class(trim_start(s), CharClass::WhiteSpace)
}

pub proof fn lemma_skip_fwd_bounds(s: Seq<char>, i: int, cls: CharClass)
    requires
        0 <= i <= s.len(),
    ensures
        i <= skip_fwd(s, i, cls) <= s.len(),
        forall|k: int| i <= k < skip_fwd(s, i, cls) ==> in_class(#[trigger] s[k], cls),
        skip_fwd(s, i, cls) < s.len() ==> !in_class(s[skip_fwd(s, i, cls)], cls),
    decreases s.len() - i,
{
    if i < s.len() && in_class(s[i], cls) {
        lemma_skip_fwd_bounds(s, i + 1, cls);
    }
}

pub proof fn lemma_skip_back_bounds(s: Seq<char>, j: int, cls: CharClass)
    requires
        0 <= j <= s.len(),
    ensures
        0 <= skip_back(s, j, cls) <= j,
        forall|k: int| skip_back(s, j, cls) <= k < j ==> in_class(#[trigger] s[k], cls),
        skip_back(s, j, cls) > 0 ==> !in_class(s[skip_back(s, j, cls) - 1], cls),
    decreases j,
{
    if j > 0 && in_class(s[j - 1], cls) {
        lemma_skip_back_bounds(s, j - 1, cls);
    }
}

/// Appends one character to a string (`String::push`).
#[verifier::external_body]
pub(crate) fn push_char(s: &mut String, c: char)
    ensures
        final(s)@ == old(s)@.push(c),
{
    s.push(c);
}

/// The characters of a string slice, in order.
pub fn chars_of(s: &str) -> (v: Vec<char>)
    ensures
        v@ == s@,
{
    broadcast use vstd::string::group_string_axioms;

    let mut v: Vec<char> = Vec::new();
    for c in it: s.chars()
        invariant
            v@ == it.seq().take(it.index() as int),
            it.seq() == s@,
    {
        v.push(c);
        assert(v@ =~= it.seq().take(it.index() + 1));
    }
    assert(v@ =~= s@);
    v
}

/// A string holding the characters `v[a..b]`.
pub fn string_of_range(v: &Vec<char>, a: usize, b: usize) -> (s: String)
    requires
        a <= b <= v@.len(),
    ensures
        s@ == v@.subrange(a as int, b as int),
{
    let mut s = String::new();
    let mut i = a;
    while i < b
        invariant
            a <= i <= b <= v@.len(),
            s@ == v@.subrange(a as int, i as int),
        decreases b - i,
    {
        push_char(&mut s, v[i]);
        i = i + 1;
        assert(s@ =~= v@.subrange(a as int, i as int));
    }
    s
}

/// A string holding the characters of `v`.
pub fn string_of(v: &Vec<char>) -> (s: String)
    ensures
        s@ == v@,
{
    let s = string_of_range(v, 0, v.len());
    assert(v@.subrange(0, v@.len() as int) =~= v@);
    s
}

/// The characters `v[a..b]`, copied.
pub fn copy_range(v: &Vec<char>, a: usize, b: usize) -> (r: Vec<char>)
    requires
        a <= b <= v@.len(),
    ensures
        r@ == v@.subrange(a as int, b as int),
{
    let mut r: Vec<char> = Vec::new();
    let mut i = a;
    while i < b
        invariant
            a <= i <= b <= v@.len(),
            r@ == v@.subrange(a as int, i as int),
        decreases b - i,
    {
        r.push(v[i]);
        i = i + 1;
        assert(r@ =~= v@.subrange(a as int, i as int));
    }
    r
}

pub fn skip_fwd_exec(v: &Vec<char>, i: usize, cls: CharClass) -> (k: usize)
    requires
        i <= v@.len(),
    ensures
        k == skip_fwd(v@, i as int, cls),
        i <= k <= v@.len(),
{
    proof {
        lemma_skip_fwd_bounds(v@, i as int, cls);
    }
    let mut k = i;
    while k < v.len() && char_in_class(v[k], cls)
        invariant
            i <= k <= v@.len(),
            skip_fwd(v@, i as int, cls) == skip_fwd(v@, k as int, cls),
        decreases v@.len() - k,
    {
        k = k + 1;
    }
    k
}

pub fn skip_back_exec(v: &Vec<char>, j: usize, cls: CharClass) -> (k: usize)
    requires
        j <= v@.len(),
    ensures
        k == skip_back(v@, j as int, cls),
        k <= j,
{
    proof {
        lemma_skip_back_bounds(v@, j as int, cls);
    }
    let mut k = j;
    while k > 0 && char_in_class(v[k - 1], cls)
        invariant
            k <= j <= v@.len(),
            skip_back(v@, j as int, cls) == skip_back(v@, k as int, cls),
        decreases k,
    {
        k = k - 1;
    }
    k
}

/// `trim_start_matches` on a character vector.
pub fn trim_start_chars(v: &Vec<char>, cls: CharClass) -> (r: Vec<char>)
    ensures
        r@ == trim_start_class(v@, cls),
{
    let a = skip_fwd_exec(v, 0, cls);
    copy_range(v, a, v.len())
}

/// `trim_end_matches` on a character vector.
pub fn trim_end_chars(v: &Vec<char>, cls: CharClass) -> (r: Vec<char>)
    ensures
        r@ == trim_end_class(v@, cls),
{
    let b = skip_back_exec(v, v.len(), cls);
    copy_range(v, 0, b)
}

/// `str::trim` on a character vector.
pub fn trim_chars(v: &Vec<char>) -> (r: Vec<char>)
    ensures
        r@ == trim(v@),
{
    let t = trim_start_chars(v, CharClass::WhiteSpace);
    trim_end_chars(&t, CharClass::WhiteSpace)
}


/// `char::to_ascii_lowercase`.
pub open spec fn ascii_lower(c: char) -> char {
    if 'A' <= c && c <= 'Z' {
        ((c as u8) + 32) as char
    } else {
        c
    }
}

/// `str::to_ascii_lowercase`.
pub open spec fn lower(s: Seq<char>) -> Seq<char> {
    s.map_values(|c: char| ascii_lower(c))
}

/// `str::eq_ignore_ascii_case`.
pub open spec fn eq_ic(a: Seq<char>, b: Seq<char>) -> bool {
    &&& a.len() == b.len()
    &&& forall|i: int| 0 <= i < a.len() ==> ascii_lower(#[trigger] a[i]) == ascii_lower(b[i])
}

pub fn ascii_lower_exec(c: char) -> (r: char)
    ensures
        r == ascii_lower(c),
{
    if 'A' <= c && c <= 'Z' {
        ((c as u8) + 32) as char
    } else {
        c
    }
}

pub fn lower_chars(v: &Vec<char>) -> (r: Vec<char>)
    ensures
        r@ == lower(v@),
{
    let mut r: Vec<char> = Vec::new();
    let mut i: usize = 0;
    while i < v.len()
        invariant
            i <= v@.len(),
            r@ == lower(v@.take(i as int)),
        decreases v@.len() - i,
    {
        r.push(ascii_lower_exec(v[i]));
        i = i + 1;
        assert(r@ =~= lower(v@.take(i as int)));
    }
    assert(v@.take(v@.len() as int) =~= v@);
    r
}

/// Case-insensitive (ASCII) comparison of `v[a..b]` with `w`.
pub fn range_eq_ic(v: &Vec<char>, a: usize, b: usize, w: &Vec<char>) -> (r: bool)
    requires
        a <= b <= v@.len(),
    ensures
        r == eq_ic(v@.subrange(a as int, b as int), w@),
{
    if b - a != w.len() {
        return false;
    }
    let mut i: usize = 0;
    while i < w.len()
        invariant
            a <= b <= v@.len(),
            b - a == w@.len(),
            i <= w@.len(),
            forall|k: int| 0 <= k < i ==> ascii_lower(v@[a + k]) == ascii_lower(w@[k]),
        decreases w@.len() - i,
    {
        if ascii_lower_exec(v[a + i]) != ascii_lower_exec(w[i]) {
            assert(ascii_lower(v@.subrange(a as int, b as int)[i as int]) != ascii_lower(w@[i as int]));
            return false;
        }
        i = i + 1;
    }
    assert forall|k: int| 0 <= k < w@.len() implies ascii_lower(
        #[trigger] v@.subrange(a as int, b as int)[k],
    ) == ascii_lower(w@[k]) by {
        assert(v@.subrange(a as int, b as int)[k] == v@[a + k]);
    }
    true
}

pub fn eq_ic_chars(v: &Vec<char>, w: &Vec<char>) -> (r: bool)
    ensures
        r == eq_ic(v@, w@),
{
    let r = range_eq_ic(v, 0, v.len(), w);
    assert(v@.subrange(0, v@.len() as int) =~= v@);
    r
}

/// Index of the first `c` in `s` at or after `i`, or `s.len()` when there is none.
pub open spec fn find_from(s: Seq<char>, c: char, i: int) -> int
    decreases s.len() - i,
{
    if i < 0 || i >= s.len() {
        s.len() as int
    } else if s[i] == c {
        i
    } else {
        find_from(s, c, i + 1)
    }
}

/// Index of the last `c` in `s` before `j`, or `-1` when there is none.
pub open spec fn rfind_before(s: Seq<char>, c: char, j: int) -> int
    decreases j,
{
    if j <= 0 || j > s.len() {
        -1
    } else if s[j - 1] == c {
        j - 1
    } else {
        rfind_before(s, c, j - 1)
    }
}

pub proof fn lemma_find_from(s: Seq<char>, c: char, i: int)
    requires
        0 <= i <= s.len(),
    ensures
        i <= find_from(s, c, i) <= s.len(),
        forall|k: int| i <= k < find_from(s, c, i) ==> #[trigger] s[k] != c,
        find_from(s, c, i) < s.len() ==> s[find_from(s, c, i)] == c,
    decreases s.len() - i,
{
    if i < s.len() && s[i] != c {
        lemma_find_from(s, c, i + 1);
    }
}

pub proof fn lemma_rfind_before(s: Seq<char>, c: char, j: int)
    requires
        0 <= j <= s.len(),
    ensures
        -1 <= rfind_before(s, c, j) < j,
        forall|k: int| rfind_before(s, c, j) < k < j ==> #[trigger] s[k] != c,
        rfind_before(s, c, j) >= 0 ==> s[rfind_before(s, c, j)] == c,
    decreases j,
{
    if j > 0 && s[j - 1] != c {
        lemma_rfind_before(s, c, j - 1);
    }
}

/// `str::split_once` at a character.
pub open spec fn split_once(s: Seq<char>, c: char) -> Option<(Seq<char>, Seq<char>)> {
    let i = find_from(s, c, 0);
    if i < s.len() {
        Some((s.take(i), s.skip(i + 1)))
    } else {
        None
    }
}

/// `str::rsplit_once` at a character.
pub open spec fn rsplit_once(s: Seq<char>, c: char) -> Option<(Seq<char>, Seq<char>)> {
    let i = rfind_before(s, c, s.len() as int);
    if i >= 0 {
        Some((s.take(i), s.skip(i + 1)))
    } else {
        None
    }
}

/// The first piece of `str::split` at a character.
pub open spec fn first_piece(s: Seq<char>, c: char) -> Seq<char> {
    s.take(find_from(s, c, 0))
}

pub fn find_exec(v: &Vec<char>, c: char, i: usize) -> (k: usize)
    requires
        i <= v@.len(),
    ensures
        k == find_from(v@, c, i as int),
        i <= k <= v@.len(),
{
    proof {
        lemma_find_from(v@, c, i as int);
    }
    let mut k = i;
    while k < v.len() && v[k] != c
        invariant
            i <= k <= v@.len(),
            find_from(v@, c, i as int) == find_from(v@, c, k as int),
        decreases v@.len() - k,
    {
        k = k + 1;
    }
    k
}

/// Returns `rfind_before(v, c, len) + 1`, so `0` when `c` does not occur.
pub fn rfind_exec(v: &Vec<char>, c: char) -> (k: usize)
    ensures
        k as int == rfind_before(v@, c, v@.len() as int) + 1,
{
    proof {
        lemma_rfind_before(v@, c, v@.len() as int);
    }
    let mut k = v.len();
    while k > 0 && v[k - 1] != c
        invariant
            k <= v@.len(),
            rfind_before(v@, c, v@.len() as int) == rfind_before(v@, c, k as int),
        decreases k,
    {
        k = k - 1;
    }
    k
}

/// Splitting `a + [c] + b` at its first `c`, when `a` holds no `c`, gives `a` and `b`.
pub proof fn lemma_split_once_concat(a: Seq<char>, c: char, b: Seq<char>)
    requires
        !a.contains(c),
    ensures
        split_once(a + seq![c] + b, c) == Some((a, b)),
{
    let s = a + seq![c] + b;
    lemma_find_from(s, c, 0);
    let i = find_from(s, c, 0);
    assert(s[a.len() as int] == c);
    if i < a.len() {
        assert(s[i] == a[i]);
        assert(a.contains(c));
    }
    assert(i == a.len());
    assert(s.take(i) =~= a);
    assert(s.skip(i + 1) =~= b);
}

/// The pieces that `split_once` returns: the first holds no `c`, and they
/// rebuild the text around the `c` between them.
pub proof fn lemma_split_once_pieces(s: Seq<char>, c: char)
    ensures
        split_once(s, c) matches Some((a, b)) ==> !a.contains(c) && s == a + seq![c] + b,
        split_once(s, c) is None ==> !s.contains(c),
{
    lemma_find_from(s, c, 0);
    let i = find_from(s, c, 0);
    if i < s.len() {
        let a = s.take(i);
        assert forall|k: int| 0 <= k < a.len() implies a[k] != c by {
            assert(a[k] == s[k]);
        }
        assert(s =~= a + seq![c] + s.skip(i + 1));
    } else {
        assert forall|k: int| 0 <= k < s.len() implies s[k] != c by {}
    }
}

/// Trimming leaves alone a text that starts and ends with non-white-space.
pub proof fn lemma_trim_unchanged(s: Seq<char>)
    requires
        s.len() > 0,
        !is_white_space(s[0]),
        !is_white_space(s.last()),
    ensures
        trim(s) == s,
{
    assert(skip_fwd(s, 0, CharClass::WhiteSpace) == 0);
    assert(s.skip(0) =~= s);
    assert(skip_back(s, s.len() as int, CharClass::WhiteSpace) == s.len());
    assert(s.take(s.len() as int) =~= s);
}

/// `str::starts_with`.
pub open spec fn starts_with(s: Seq<char>, p: Seq<char>) -> bool {
    p.len() <= s.len() && s.take(p.len() as int) == p
}

pub fn starts_with_exec(v: &Vec<char>, p: &Vec<char>) -> (r: bool)
    ensures
        r == starts_with(v@, p@),
{
    if p.len() > v.len() {
        return false;
    }
    let mut i: usize = 0;
    while i < p.len()
        invariant
            p@.len() <= v@.len(),
            i <= p@.len(),
            forall|k: int| 0 <= k < i ==> v@[k] == p@[k],
        decreases p@.len() - i,
    {
        if v[i] != p[i] {
            assert(v@.take(p@.len() as int)[i as int] != p@[i as int]);
            return false;
        }
        i = i + 1;
    }
    assert(v@.take(p@.len() as int) =~= p@);
    true
}

/// `str::contains` with a string pattern.
pub open spec fn contains_sub(s: Seq<char>, p: Seq<char>) -> bool {
    exists|i: int| 0 <= i <= s.len() - p.len() && #[trigger] s.subrange(i, i + p.len()) == p
}

pub fn contains_sub_exec(v: &Vec<char>, p: &Vec<char>) -> (r: bool)
    ensures
        r == contains_sub(v@, p@),
{
    if p.len() > v.len() {
        return false;
    }
    let n = v.len();
    let mut i: usize = 0;
    while i <= v.len() - p.len()
        invariant
            n == v@.len(),
            p@.len() <= v@.len(),
            i <= v@.len() - p@.len() + 1,
            forall|k: int| 0 <= k < i ==> #[trigger] v@.subrange(k, k + p@.len()) != p@,
        decreases v@.len() - p@.len() + 1 - i,
    {
        let mut j: usize = 0;
        let mut same = true;
        while j < p.len()
            invariant
                n == v@.len(),
                p@.len() <= v@.len(),
                i + p@.len() <= v@.len(),
                j <= p@.len(),
                same == (forall|k: int| 0 <= k < j ==> v@[i + k] == p@[k]),
            decreases p@.len() - j,
        {
            if v[i + j] != p[j] {
                same = false;
            }
            j = j + 1;
        }
        if same {
            assert(v@.subrange(i as int, i + p@.len()) =~= p@);
            return true;
        }
        assert(v@.subrange(i as int, i + p@.len())[0] == v@[i as int + 0]);
        assert(!(v@.subrange(i as int, i + p@.len()) =~= p@));
        i = i + 1;
    }
    false
}


pub open spec fn is_digit(c: char) -> bool {
    '0' <= c && c <= '9'
}

pub open spec fn digit_value(c: char) -> nat {
    (c as int - '0' as int) as nat
}

/// The value of a sequence of decimal digits, most significant first.
pub open spec fn digits_value(d: Seq<char>) -> nat
    decreases d.len(),
{
    if d.len() == 0 {
        0
    } else {
        digits_value(d.drop_last()) * 10 + digit_value(d.last())
    }
}

/// The digits that `<u64 as FromStr>::from_str` reads: all after an optional leading `+`.
pub open spec fn unsigned_digits(s: Seq<char>) -> Seq<char> {
    if s.len() > 0 && s[0] == '+' {
        s.skip(1)
    } else {
        s
    }
}

/// One or more decimal digits whose value fits in a `u64`.
pub open spec fn parse_digits(d: Seq<char>) -> Option<u64> {
    if d.len() > 0 && (forall|i: int| 0 <= i < d.len() ==> is_digit(#[trigger] d[i]))
        && digits_value(d) <= u64::MAX {
        Some(digits_value(d) as u64)
    } else {
        None
    }
}

/// `<u64 as FromStr>::from_str`.
pub open spec fn parse_u64(s: Seq<char>) -> Option<u64> {
    parse_digits(unsigned_digits(s))
}

proof fn lemma_digits_value_prefix(d: Seq<char>, k: int)
    requires
        0 <= k <= d.len(),
    ensures
        digits_value(d.take(k)) <= digits_value(d),
    decreases d.len(),
{
    if k < d.len() {
        lemma_digits_value_prefix(d.drop_last(), k);
        assert(d.drop_last().take(k) =~= d.take(k));
    } else {
        assert(d.take(k) =~= d);
    }
}

/// Parses the characters of `v` as `<u64 as FromStr>::from_str` does.
pub fn parse_u64_chars(v: &Vec<char>) -> (r: Option<u64>)
    ensures
        r == parse_u64(v@),
{
    let a: usize = if v.len() > 0 && v[0] == '+' {
        1
    } else {
        0
    };
    let ghost d = unsigned_digits(v@);
    assert(d =~= v@.skip(a as int));
    if a >= v.len() {
        assert(d.len() == 0);
        return None;
    }
    let mut i = a;
    while i < v.len()
        invariant
            a <= i <= v@.len(),
            d =~= v@.skip(a as int),
            d == unsigned_digits(v@),
            forall|k: int| 0 <= k < i - a ==> is_digit(#[trigger] d[k]),
        decreases v@.len() - i,
    {
        if !('0' <= v[i] && v[i] <= '9') {
            assert(d[i - a] == v@[i as int]);
            assert(!is_digit(d[i - a]));
            assert(!(forall|k: int| 0 <= k < d.len() ==> is_digit(#[trigger] d[k])));
            return None;
        }
        i = i + 1;
    }
    let mut acc: u64 = 0;
    let mut i = a;
    while i < v.len()
        invariant
            a <= i <= v@.len(),
            d =~= v@.skip(a as int),
            d == unsigned_digits(v@),
            forall|k: int| 0 <= k < d.len() ==> is_digit(#[trigger] d[k]),
            acc == digits_value(d.take(i - a)),
        decreases v@.len() - i,
    {
        assert(d[i - a] == v@[i as int]);
        assert(is_digit(d[i - a]));
        let dv = (v[i] as u32) - ('0' as u32);
        assert(d.take(i - a + 1).drop_last() =~= d.take(i - a));
        assert(d.take(i - a + 1).last() == d[i - a]);
        assert(digits_value(d.take(i - a + 1)) == acc * 10 + dv);
        match acc.checked_mul(10) {
            Some(m) => match m.checked_add(dv as u64) {
                Some(s) => {
                    acc = s;
                },
                None => {
                    proof {
                        lemma_digits_value_prefix(d, i - a + 1);
                    }
                    return None;
                },
            },
            None => {
                proof {
                    lemma_digits_value_prefix(d, i - a + 1);
                }
                return None;
            },
        }
        i = i + 1;
    }
    assert(d.take(d.len() as int) =~= d);
    Some(acc)
}

pub open spec fn digit_char(d: nat) -> char {
    ((d + 48) as u8) as char
}

/// The decimal representation of `n` (`ToString` on an unsigned integer).
pub open spec fn decimal(n: nat) -> Seq<char>
    decreases n,
{
    if n < 10 {
        seq![digit_char(n)]
    } else {
        decimal(n / 10).push(digit_char(n % 10))
    }
}

pub fn push_decimal(out: &mut Vec<char>, n: u64)
    ensures
        final(out)@ == old(out)@ + decimal(n as nat),
    decreases n,
{
    if n >= 10 {
        push_decimal(out, n / 10);
    }
    let c = ((n % 10) as u8 + 48) as char;
    out.push(c);
    assert(final(out)@ =~= old(out)@ + decimal(n as nat)) by {
        if n >= 10 {
            assert(decimal(n as nat) == decimal((n / 10) as nat).push(digit_char((n % 10) as nat)));
        }
    }
}


/// Appends the characters of `w` to `out`.
pub fn push_all(out: &mut Vec<char>, w: &Vec<char>)
    ensures
        final(out)@ == old(out)@ + w@,
{
    let ghost start = out@;
    let mut i: usize = 0;
    while i < w.len()
        invariant
            i <= w@.len(),
            out@ == start + w@.take(i as int),
        decreases w@.len() - i,
    {
        out.push(w[i]);
        i = i + 1;
        assert(out@ =~= start + w@.take(i as int));
    }
    assert(w@.take(w@.len() as int) =~= w@);
}

/// Appends the characters of a string slice to `out`.
pub fn push_str_chars(out: &mut Vec<char>, s: &str)
    ensures
        final(out)@ == old(out)@ + s@,
{
    let w = chars_of(s);
    push_all(out, &w);
}


/// `a` followed by `b`.
pub fn concat2(a: &str, b: &str) -> (r: String)
    ensures
        r@ == a@ + b@,
{
    let mut out: Vec<char> = Vec::new();
    push_str_chars(&mut out, a);
    push_str_chars(&mut out, b);
    string_of(&out)
}

/// `a`, then `b`, then `c`.
pub fn concat3(a: &str, b: &str, c: &str) -> (r: String)
    ensures
        r@ == a@ + b@ + c@,
{
    let mut out: Vec<char> = Vec::new();
    push_str_chars(&mut out, a);
    push_str_chars(&mut out, b);
    push_str_chars(&mut out, c);
    string_of(&out)
}

/// Whether a string slice holds exactly the characters `w`.
pub fn str_eq_chars(s: &str, w: &Vec<char>) -> (r: bool)
    ensures
        r == (s@ == w@),
{
    let v = chars_of(s);
    if v.len() != w.len() {
        return false;
    }
    let mut i: usize = 0;
    while i < v.len()
        invariant
            v@ == s@,
            v@.len() == w@.len(),
            i <= v@.len(),
            forall|k: int| 0 <= k < i ==> v@[k] == w@[k],
        decreases v@.len() - i,
    {
        if v[i] != w[i] {
            assert(v@[i as int] != w@[i as int]);
            return false;
        }
        i = i + 1;
    }
    assert(v@ =~= w@);
    true
}

/// Whether two string slices hold the same characters.
pub fn str_eq(a: &str, b: &str) -> (r: bool)
    ensures
        r == (a@ == b@),
{
    let w = chars_of(b);
    str_eq_chars(a, &w)
}


/// Splitting `a + [c] + b` at its last `c`, when `b` holds no `c`, gives `a` and `b`.
pub proof fn lemma_rsplit_once_concat(a: Seq<char>, c: char, b: Seq<char>)
    requires
        !b.contains(c),
    ensures
        rsplit_once(a + seq![c] + b, c) == Some((a, b)),
{
    let s = a + seq![c] + b;
    lemma_rfind_before(s, c, s.len() as int);
    let i = rfind_before(s, c, s.len() as int);
    assert(s[a.len() as int] == c);
    if i > a.len() {
        assert(s[i] == b[i - a.len() - 1]);
        assert(b.contains(c));
    }
    assert(i == a.len());
    assert(s.take(i) =~= a);
    assert(s.skip(i + 1) =~= b);
}

proof fn lemma_digit_char(d: nat)
    requires
        d < 10,
    ensures
        is_digit(digit_char(d)),
        digit_value(digit_char(d)) == d,
        !is_white_space(digit_char(d)),
        digit_char(d) != '+',
{
    assert(digit_char(d) as int == d + 48);
}

/// The decimal form of a number is made of digits and reads back as the number.
pub proof fn lemma_decimal(n: nat)
    ensures
        decimal(n).len() > 0,
        forall|i: int| 0 <= i < decimal(n).len() ==> is_digit(#[trigger] decimal(n)[i]),
        digits_value(decimal(n)) == n,
    decreases n,
{
    if n < 10 {
        lemma_digit_char(n);
        assert(decimal(n).drop_last() =~= Seq::<char>::empty());
        assert(digits_value(Seq::<char>::empty()) == 0);
        assert(decimal(n).last() == digit_char(n));
        assert(digits_value(decimal(n)) == digits_value(Seq::<char>::empty()) * 10 + digit_value(
            digit_char(n),
        ));
    } else {
        lemma_decimal(n / 10);
        lemma_digit_char(n % 10);
        let d = decimal(n / 10);
        assert(decimal(n).drop_last() =~= d);
        assert(decimal(n).last() == digit_char(n % 10));
        assert(digits_value(decimal(n)) == digits_value(d) * 10 + digit_value(digit_char(n % 10)));
        assert((n / 10) * 10 + n % 10 == n) by (nonlinear_arith);
        assert forall|i: int| 0 <= i < decimal(n).len() implies is_digit(#[trigger] decimal(n)[i]) by {
            if i < d.len() {
                assert(decimal(n)[i] == d[i]);
            }
        }
    }
}

/// `u64` values print and parse back to themselves.
pub proof fn lemma_parse_decimal(n: u64)
    ensures
        parse_u64(decimal(n as nat)) == Some(n),
        !decimal(n as nat).contains('/'),
        trim(decimal(n as nat)) == decimal(n as nat),
{
    lemma_decimal(n as nat);
    let d = decimal(n as nat);
    assert(is_digit(d[0]));
    assert(d[0] != '+');
    assert(unsigned_digits(d) == d);
    assert(!d.contains('/')) by {
        assert forall|i: int| 0 <= i < d.len() implies d[i] != '/' by {
            assert(is_digit(d[i]));
        }
    }
    assert(is_digit(d.last()));
    lemma_trim_unchanged(d);
}

/// Whether `c` occurs in `v`.
pub fn contains_char(v: &Vec<char>, c: char) -> (r: bool)
    ensures
        r == v@.contains(c),
{
    let k = find_exec(v, c, 0);
    proof {
        lemma_find_from(v@, c, 0);
        if !(k < v@.len()) {
            assert forall|j: int| 0 <= j < v@.len() implies v@[j] != c by {}
        }
    }
    k < v.len()
}

/// Splits `v` at its first `c`.
pub fn split_once_chars(v: &Vec<char>, c: char) -> (r: Option<(Vec<char>, Vec<char>)>)
    ensures
        match r {
            Some((a, b)) => split_once(v@, c) == Some((a@, b@)),
            None => split_once(v@, c) is None,
        },
{
    let k = find_exec(v, c, 0);
    if k < v.len() {
        Some((copy_range(v, 0, k), copy_range(v, k + 1, v.len())))
    } else {
        None
    }
}

} // verus!
