//! Text primitives: everything the rest of the crate needs to know about
//! strings, stated over `Seq<char>`.

use vstd::prelude::*;

verus! {

broadcast use vstd::string::group_string_axioms;

// ---------------------------------------------------------------------------
// Specifications
// ---------------------------------------------------------------------------

/// The Unicode `White_Space` property.
pub open spec fn is_white(c: char) -> bool {
    let n = c as u32;
    ||| 0x9 <= n <= 0xd
    ||| n == 0x20
    ||| n == 0x85
    ||| n == 0xa0
    ||| n == 0x1680
    ||| 0x2000 <= n <= 0x200a
    ||| n == 0x2028
    ||| n == 0x2029
    ||| n == 0x202f
    ||| n == 0x205f
    ||| n == 0x3000
}

/// `s` without its leading white space.
pub open spec fn trim_start(s: Seq<char>) -> Seq<char>
    decreases s.len(),
{
    if s.len() > 0 && is_white(s[0]) {
        trim_start(s.drop_first())
    } else {
        s
    }
}

/// `s` without its trailing white space.
pub open spec fn trim_end(s: Seq<char>) -> Seq<char>
    decreases s.len(),
{
    if s.len() > 0 && is_white(s.last()) {
        trim_end(s.drop_last())
    } else {
        s
    }
}

/// `s` without leading and trailing white space.
pub open spec fn trim(s: Seq<char>) -> Seq<char> {
    trim_end(trim_start(s))
}

/// The position of the first `c` in `s`, or `s.len()`.
pub open spec fn first_index(s: Seq<char>, c: char) -> int
    decreases s.len(),
{
    if s.len() == 0 || s[0] == c {
        0
    } else {
        1 + first_index(s.drop_first(), c)
    }
}

/// The position of the last `c` in `s`, or -1.
pub open spec fn last_index(s: Seq<char>, c: char) -> int
    decreases s.len(),
{
    if s.len() == 0 {
        -1
    } else if s.last() == c {
        s.len() - 1
    } else {
        last_index(s.drop_last(), c)
    }
}

/// What stands before and after the first `c`.
pub open spec fn split_once(s: Seq<char>, c: char) -> Option<(Seq<char>, Seq<char>)> {
    let i = first_index(s, c);
    if i < s.len() {
        Some((s.take(i), s.skip(i + 1)))
    } else {
        None
    }
}

/// What stands before and after the last `c`.
pub open spec fn rsplit_once(s: Seq<char>, c: char) -> Option<(Seq<char>, Seq<char>)> {
    let i = last_index(s, c);
    if i >= 0 {
        Some((s.take(i), s.skip(i + 1)))
    } else {
        None
    }
}

/// `s` begins with `p`.
pub open spec fn starts_with(s: Seq<char>, p: Seq<char>) -> bool {
    p.len() <= s.len() && s.take(p.len() as int) == p
}

/// `p` stands in `s` at position `i`.
pub open spec fn occurs_at(s: Seq<char>, p: Seq<char>, i: int) -> bool {
    0 <= i && i + p.len() <= s.len() && s.subrange(i, i + p.len()) == p
}

/// `p` stands somewhere in `s`.
pub open spec fn contains(s: Seq<char>, p: Seq<char>) -> bool {
    exists|i: int| occurs_at(s, p, i)
}

/// ASCII upper case letters to lower case, everything else as it is.
pub open spec fn lower(c: char) -> char {
    if 'A' <= c && c <= 'Z' {
        ((c as u8) + 32u8) as u8 as char
    } else {
        c
    }
}

/// ASCII lower case of a text.
pub open spec fn lower_text(s: Seq<char>) -> Seq<char> {
    Seq::new(s.len(), |i: int| lower(s[i]))
}

/// One line without the carriage return of its line ending.
pub open spec fn strip_cr(line: Seq<char>) -> Seq<char> {
    if line.len() > 0 && line.last() == '\r' {
        line.drop_last()
    } else {
        line
    }
}

/// The lines of a text: each ends at a line feed (a carriage return right
/// before it belongs to the ending), and what follows the last line feed is a
/// line of its own unless it is empty.
pub open spec fn lines(s: Seq<char>) -> Seq<Seq<char>>
    decreases s.len(),
{
    let i = first_index(s, '\n');
    if s.len() == 0 {
        Seq::empty()
    } else if 0 <= i < s.len() {
        seq![strip_cr(s.take(i))] + lines(s.skip(i + 1))
    } else {
        seq![s]
    }
}

/// The pieces of `s` between white space, empty ones dropped.
pub open spec fn words(s: Seq<char>) -> Seq<Seq<char>>
    decreases s.len(),
{
    if s.len() == 0 {
        Seq::empty()
    } else if is_white(s[0]) {
        words(s.drop_first())
    } else {
        let n = word_len(s);
        if 0 < n <= s.len() {
            seq![s.take(n)] + words(s.skip(n))
        } else {
            Seq::empty()
        }
    }
}

/// The number of characters before the first white space.
pub open spec fn word_len(s: Seq<char>) -> int
    decreases s.len(),
{
    if s.len() == 0 || is_white(s[0]) {
        0
    } else {
        1 + word_len(s.drop_first())
    }
}

/// The pieces with `sep` between each two of them.
pub open spec fn join(pieces: Seq<Seq<char>>, sep: Seq<char>) -> Seq<char>
    decreases pieces.len(),
{
    if pieces.len() == 0 {
        Seq::empty()
    } else if pieces.len() == 1 {
        pieces[0]
    } else {
        join(pieces.drop_last(), sep) + sep + pieces.last()
    }
}

/// `s` with each `c` replaced by `by`.
pub open spec fn replace(s: Seq<char>, c: char, by: Seq<char>) -> Seq<char>
    decreases s.len(),
{
    if s.len() == 0 {
        Seq::empty()
    } else {
        replace(s.drop_last(), c, by) + (if s.last() == c {
            by
        } else {
            seq![s.last()]
        })
    }
}

/// A decimal digit.
pub open spec fn is_digit(c: char) -> bool {
    '0' <= c && c <= '9'
}

/// The value of a run of decimal digits.
pub open spec fn digits_value(s: Seq<char>) -> nat
    decreases s.len(),
{
    if s.len() == 0 {
        0
    } else {
        digits_value(s.drop_last()) * 10 + (s.last() as u32 - '0' as u32) as nat
    }
}

/// At least one character, and decimal digits only.
pub open spec fn all_digits(s: Seq<char>) -> bool {
    s.len() > 0 && forall|i: int| 0 <= i < s.len() ==> is_digit(#[trigger] s[i])
}

/// Decimal text as an unsigned number: an optional `+`, then digits, with a
/// value that fits.
pub open spec fn parse_unsigned(s: Seq<char>, max: nat) -> Option<nat> {
    let body = if s.len() > 0 && s[0] == '+' {
        s.drop_first()
    } else {
        s
    };
    if all_digits(body) && digits_value(body) <= max {
        Some(digits_value(body))
    } else {
        None
    }
}

/// Decimal text as a 32 bit signed number: an optional sign, then digits, with
/// a value that fits.
pub open spec fn parse_signed32(s: Seq<char>) -> Option<int> {
    if s.len() > 0 && s[0] == '-' {
        let body = s.drop_first();
        if all_digits(body) && -digits_value(body) >= i32::MIN {
            Some(-digits_value(body))
        } else {
            None
        }
    } else {
        match parse_unsigned(s, i32::MAX as nat) {
            Some(n) => Some(n as int),
            None => None,
        }
    }
}

/// The digit character of a value below ten.
pub open spec fn digit_char(d: nat) -> char {
    (('0' as u32) + d) as u32 as char
}

/// The decimal digits of a number, without leading zeros.
pub open spec fn decimal(n: nat) -> Seq<char>
    decreases n,
{
    if n < 10 {
        seq![digit_char(n)]
    } else {
        decimal(n / 10).push(digit_char(n % 10))
    }
}

/// A signed number in decimal.
pub open spec fn signed_decimal(n: int) -> Seq<char> {
    if n < 0 {
        seq!['-'] + decimal((-n) as nat)
    } else {
        decimal(n as nat)
    }
}

/// Code point order, the order in which strings compare.
pub open spec fn lex_less(a: Seq<char>, b: Seq<char>) -> bool
    decreases a.len(),
{
    if b.len() == 0 {
        false
    } else if a.len() == 0 {
        true
    } else if a[0] != b[0] {
        (a[0] as int) < (b[0] as int)
    } else {
        lex_less(a.drop_first(), b.drop_first())
    }
}

/// The texts of a sequence of strings.
pub open spec fn texts(v: Seq<String>) -> Seq<Seq<char>> {
    Seq::new(v.len(), |i: int| v[i]@)
}

/// The text of an optional string.
pub open spec fn opt_text(o: Option<String>) -> Option<Seq<char>> {
    match o {
        Some(s) => Some(s@),
        None => None,
    }
}

/// The text of an optional string slice.
pub open spec fn opt_str(o: Option<&str>) -> Option<Seq<char>> {
    match o {
        Some(s) => Some(s@),
        None => None,
    }
}

// ---------------------------------------------------------------------------
// Building blocks
// ---------------------------------------------------------------------------

/// `String::push` appends one character to the end of the string.
pub assume_specification[ String::push ](s: &mut String, c: char)
    ensures
        final(s)@ == old(s)@.push(c),
;

/// The characters of a string.
pub fn chars_of(s: &str) -> (r: Vec<char>)
    ensures
        r@ == s@,
{
    let mut v: Vec<char> = Vec::new();
    for c in it: s.chars()
        invariant
            v@ == it.seq().take(it.index() as int),
            it.seq() == s@,
    {
        v.push(c);
    }
    v
}

/// The characters `from..to` as a string.
pub fn slice_text(v: &Vec<char>, from: usize, to: usize) -> (r: String)
    requires
        from <= to <= v@.len(),
    ensures
        r@ == v@.subrange(from as int, to as int),
{
    let mut out: String = String::new();
    let mut i: usize = from;
    while i < to
        invariant
            from <= i <= to <= v@.len(),
            out@ == v@.subrange(from as int, i as int),
        decreases to - i,
    {
        out.push(v[i]);
        i += 1;
        assert(v@.subrange(from as int, i as int) =~= v@.subrange(from as int, i - 1).push(v@[i - 1]));
    }
    out
}

/// Two string slices hold the same text.
pub fn str_eq(a: &str, b: &str) -> (r: bool)
    ensures
        r == (a@ == b@),
{
    let x: String = a.to_owned();
    let y: String = b.to_owned();
    x == y
}

/// An optional string holds exactly this text.
pub fn opt_is(a: Option<&str>, b: &str) -> (r: bool)
    ensures
        r == (opt_str(a) == Some(b@)),
{
    match a {
        Some(s) => str_eq(s, b),
        None => false,
    }
}

/// A copy of an optional string slice.
pub fn opt_owned(a: Option<&str>) -> (r: Option<String>)
    ensures
        opt_text(r) == opt_str(a),
{
    match a {
        Some(s) => Some(s.to_owned()),
        None => None,
    }
}

/// The slice inside an optional string.
pub fn opt_as_str(a: &Option<String>) -> (r: Option<&str>)
    ensures
        opt_str(r) == opt_text(*a),
{
    match a {
        Some(s) => Some(s.as_str()),
        None => None,
    }
}

/// `a` followed by `b`.
pub fn concat2(a: &str, b: &str) -> (r: String)
    ensures
        r@ == a@ + b@,
{
    let mut out: String = a.to_owned();
    out.append(b);
    out
}

/// `a`, `b` and `c` one after the other.
pub fn concat3(a: &str, b: &str, c: &str) -> (r: String)
    ensures
        r@ == a@ + b@ + c@,
{
    let mut out: String = a.to_owned();
    out.append(b);
    out.append(c);
    out
}

/// White space as `char::is_whitespace` has it.
pub fn white(c: char) -> (r: bool)
    ensures
        r == is_white(c),
{
    let n: u32 = c as u32;
    (0x9 <= n && n <= 0xd) || n == 0x20 || n == 0x85 || n == 0xa0 || n == 0x1680 || (0x2000 <= n
        && n <= 0x200a) || n == 0x2028 || n == 0x2029 || n == 0x202f || n == 0x205f || n == 0x3000
}

// ---------------------------------------------------------------------------
// Trimming
// ---------------------------------------------------------------------------

/// Where the text begins after leading white space.
fn start_index(v: &Vec<char>) -> (r: usize)
    ensures
        r <= v@.len(),
        trim_start(v@) == v@.skip(r as int),
{
    let mut i: usize = 0;
    assert(v@.skip(0) =~= v@);
    while i < v.len() && white(v[i])
        invariant
            i <= v@.len(),
            trim_start(v@) == trim_start(v@.skip(i as int)),
        decreases v@.len() - i,
    {
        assert(v@.skip(i as int).drop_first() =~= v@.skip(i + 1));
        i += 1;
    }
    i
}

/// Where the text `v[from..]` ends before trailing white space.
fn end_index(v: &Vec<char>, from: usize) -> (r: usize)
    requires
        from <= v@.len(),
    ensures
        from <= r <= v@.len(),
        trim_end(v@.skip(from as int)) == v@.subrange(from as int, r as int),
{
    let mut i: usize = v.len();
    assert(v@.subrange(from as int, i as int) =~= v@.skip(from as int));
    while i > from && white(v[i - 1])
        invariant
            from <= i <= v@.len(),
            trim_end(v@.skip(from as int)) == trim_end(v@.subrange(from as int, i as int)),
        decreases i,
    {
        assert(v@.subrange(from as int, i as int).drop_last() =~= v@.subrange(from as int, i - 1));
        i -= 1;
    }
    i
}

/// `str::trim`.
pub fn trim_text(s: &str) -> (r: String)
    ensures
        r@ == trim(s@),
{
    let v: Vec<char> = chars_of(s);
    let a: usize = start_index(&v);
    let b: usize = end_index(&v, a);
    slice_text(&v, a, b)
}

/// `str::trim_start`.
pub fn trim_start_text(s: &str) -> (r: String)
    ensures
        r@ == trim_start(s@),
{
    let v: Vec<char> = chars_of(s);
    let a: usize = start_index(&v);
    assert(v@.skip(a as int) =~= v@.subrange(a as int, v@.len() as int));
    slice_text(&v, a, v.len())
}

// ---------------------------------------------------------------------------
// Searching and splitting
// ---------------------------------------------------------------------------

/// A position of `c` is where nothing before it is `c`.
pub proof fn lemma_first_index(s: Seq<char>, c: char)
    ensures
        0 <= first_index(s, c) <= s.len(),
        first_index(s, c) < s.len() ==> s[first_index(s, c)] == c,
        forall|j: int| 0 <= j < first_index(s, c) ==> s[j] != c,
    decreases s.len(),
{
    if s.len() == 0 || s[0] == c {
    } else {
        lemma_first_index(s.drop_first(), c);
        assert forall|j: int| 0 <= j < first_index(s, c) implies s[j] != c by {
            if j > 0 {
                assert(s.drop_first()[j - 1] == s[j]);
            }
        }
    }
}

/// The position of the first `c` at or after `from`, or the length.
pub fn find_from(v: &Vec<char>, c: char, from: usize) -> (r: usize)
    requires
        from <= v@.len(),
    ensures
        from <= r <= v@.len(),
        r == from + first_index(v@.skip(from as int), c),
{
    let mut i: usize = from;
    while i < v.len() && v[i] != c
        invariant
            from <= i <= v@.len(),
            first_index(v@.skip(from as int), c) == (i - from) + first_index(v@.skip(i as int), c),
        decreases v@.len() - i,
    {
        assert(v@.skip(i as int).drop_first() =~= v@.skip(i + 1));
        i += 1;
    }
    i
}

/// `str::split_once` on a character.
pub fn split_once_text(s: &str, c: char) -> (r: Option<(String, String)>)
    ensures
        match r {
            Some((a, b)) => split_once(s@, c) == Some((a@, b@)),
            None => split_once(s@, c) is None,
        },
{
    let v: Vec<char> = chars_of(s);
    let i: usize = find_from(&v, c, 0);
    assert(v@.skip(0) =~= v@);
    if i < v.len() {
        assert(v@.subrange(0, i as int) =~= v@.take(i as int));
        assert(v@.subrange(i + 1, v@.len() as int) =~= v@.skip(i + 1));
        Some((slice_text(&v, 0, i), slice_text(&v, i + 1, v.len())))
    } else {
        None
    }
}

/// `str::rsplit_once` on a character.
pub fn rsplit_once_text(s: &str, c: char) -> (r: Option<(String, String)>)
    ensures
        match r {
            Some((a, b)) => rsplit_once(s@, c) == Some((a@, b@)),
            None => rsplit_once(s@, c) is None,
        },
{
    let v: Vec<char> = chars_of(s);
    let mut i: usize = v.len();
    assert(v@.take(v@.len() as int) =~= v@);
    while i > 0 && v[i - 1] != c
        invariant
            i <= v@.len(),
            last_index(v@, c) == last_index(v@.take(i as int), c),
        decreases i,
    {
        assert(v@.take(i as int).drop_last() =~= v@.take(i - 1));
        i -= 1;
    }
    if i > 0 {
        assert(v@.subrange(0, i - 1) =~= v@.take(i - 1));
        assert(v@.subrange(i as int, v@.len() as int) =~= v@.skip(i as int));
        Some((slice_text(&v, 0, i - 1), slice_text(&v, i, v.len())))
    } else {
        None
    }
}

/// `p` stands at position `at` of `v`.
pub fn matches_at(v: &Vec<char>, p: &Vec<char>, at: usize) -> (r: bool)
    requires
        at + p@.len() <= v@.len(),
    ensures
        r == occurs_at(v@, p@, at as int),
{
    let mut i: usize = 0;
    let n: usize = v.len();
    while i < p.len()
        invariant
            i <= p@.len(),
            n == v@.len(),
            at + p@.len() <= n,
            forall|j: int| 0 <= j < i ==> v@[at + j] == p@[j],
        decreases p@.len() - i,
    {
        if v[at + i] != p[i] {
            assert(v@.subrange(at as int, at + p@.len())[i as int] == v@[at + i]);
            return false;
        }
        i += 1;
    }
    assert(v@.subrange(at as int, at + p@.len()) =~= p@);
    true
}

/// `str::starts_with` on a string.
pub fn starts_with_text(s: &str, p: &str) -> (r: bool)
    ensures
        r == starts_with(s@, p@),
{
    let v: Vec<char> = chars_of(s);
    let q: Vec<char> = chars_of(p);
    if q.len() > v.len() {
        return false;
    }
    assert(v@.take(q@.len() as int) =~= v@.subrange(0, q@.len() as int));
    matches_at(&v, &q, 0)
}

/// `str::strip_prefix` on a string.
pub fn strip_prefix_text(s: &str, p: &str) -> (r: Option<String>)
    ensures
        match r {
            Some(rest) => starts_with(s@, p@) && rest@ == s@.skip(p@.len() as int),
            None => !starts_with(s@, p@),
        },
{
    let v: Vec<char> = chars_of(s);
    let q: Vec<char> = chars_of(p);
    if starts_with_text(s, p) {
        assert(v@.subrange(q@.len() as int, v@.len() as int) =~= v@.skip(q@.len() as int));
        Some(slice_text(&v, q.len(), v.len()))
    } else {
        None
    }
}

/// `str::contains` on a string.
pub fn contains_text(s: &str, p: &str) -> (r: bool)
    ensures
        r == contains(s@, p@),
{
    let v: Vec<char> = chars_of(s);
    let q: Vec<char> = chars_of(p);
    if q.len() > v.len() {
        return false;
    }
    let last: usize = v.len() - q.len();
    let mut i: usize = 0;
    while i < last
        invariant
            last + q@.len() == v@.len(),
            v@ == s@,
            q@ == p@,
            i <= last,
            forall|j: int| 0 <= j < i ==> !occurs_at(v@, q@, j),
        decreases last - i,
    {
        if matches_at(&v, &q, i) {
            return true;
        }
        i += 1;
    }
    let r: bool = matches_at(&v, &q, last);
    assert(forall|j: int| j > last ==> !occurs_at(v@, q@, j));
    r
}

/// `str::contains` on a character.
pub fn contains_char(s: &str, c: char) -> (r: bool)
    ensures
        r == s@.contains(c),
{
    let v: Vec<char> = chars_of(s);
    let i: usize = find_from(&v, c, 0);
    assert(v@.skip(0) =~= v@);
    proof {
        lemma_first_index(v@, c);
        if s@.contains(c) {
            let j = choose|j: int| 0 <= j < s@.len() && s@[j] == c;
            assert(!(j < first_index(v@, c)));
        }
    }
    i < v.len()
}

// ---------------------------------------------------------------------------
// Lines and words
// ---------------------------------------------------------------------------

/// `str::lines`.
pub fn lines_of(s: &str) -> (r: Vec<String>)
    ensures
        texts(r@) == lines(s@),
{
    let v: Vec<char> = chars_of(s);
    let mut out: Vec<String> = Vec::new();
    let mut i: usize = 0;
    assert(v@.skip(0) =~= v@);
    assert(texts(out@) + lines(v@) =~= lines(v@));
    while i < v.len()
        invariant
            i <= v@.len(),
            texts(out@) + lines(v@.skip(i as int)) == lines(v@),
        decreases v@.len() - i,
    {
        let rest: Ghost<Seq<char>> = Ghost(v@.skip(i as int));
        let nl: usize = find_from(&v, '\n', i);
        let before: Ghost<Seq<Seq<char>>> = Ghost(texts(out@));
        if nl < v.len() {
            let end: usize = if nl > i && v[nl - 1] == '\r' {
                nl - 1
            } else {
                nl
            };
            let line: String = slice_text(&v, i, end);
            assert(rest@.take(nl - i) =~= v@.subrange(i as int, nl as int));
            assert(line@ =~= strip_cr(rest@.take(nl - i)));
            assert(rest@.skip(nl - i + 1) =~= v@.skip(nl + 1));
            out.push(line);
            assert(texts(out@) =~= before@.push(line@));
            assert(texts(out@) + lines(v@.skip(nl + 1)) =~= before@ + (seq![line@] + lines(v@.skip(nl + 1))));
            i = nl + 1;
        } else {
            let line: String = slice_text(&v, i, nl);
            assert(line@ =~= rest@);
            out.push(line);
            assert(texts(out@) =~= before@.push(line@));
            assert(v@.skip(nl as int) =~= Seq::empty());
            assert(texts(out@) + lines(v@.skip(nl as int)) =~= before@ + seq![line@]);
            i = nl;
        }
    }
    assert(v@.skip(i as int) =~= Seq::empty());
    assert(texts(out@) + lines(v@.skip(i as int)) =~= texts(out@));
    out
}

/// `str::split_whitespace`, collected.
pub fn words_of(s: &str) -> (r: Vec<String>)
    ensures
        texts(r@) == words(s@),
{
    let v: Vec<char> = chars_of(s);
    let mut out: Vec<String> = Vec::new();
    let mut i: usize = 0;
    assert(v@.skip(0) =~= v@);
    assert(texts(out@) + words(v@) =~= words(v@));
    while i < v.len()
        invariant
            i <= v@.len(),
            texts(out@) + words(v@.skip(i as int)) == words(v@),
        decreases v@.len() - i,
    {
        let rest: Ghost<Seq<char>> = Ghost(v@.skip(i as int));
        if white(v[i]) {
            assert(rest@.drop_first() =~= v@.skip(i + 1));
            i += 1;
        } else {
            let from: usize = i;
            while i < v.len() && !white(v[i])
                invariant
                    from <= i <= v@.len(),
                    rest@ == v@.skip(from as int),
                    word_len(rest@) == (i - from) + word_len(v@.skip(i as int)),
                decreases v@.len() - i,
            {
                assert(v@.skip(i as int).drop_first() =~= v@.skip(i + 1));
                i += 1;
            }
            let before: Ghost<Seq<Seq<char>>> = Ghost(texts(out@));
            let word: String = slice_text(&v, from, i);
            assert(word@ =~= rest@.take(i - from));
            assert(rest@.skip(i - from) =~= v@.skip(i as int));
            assert(word_len(rest@) > 0) by {
                assert(rest@[0] == v@[from as int]);
                lemma_word_len(rest@.drop_first());
            }
            out.push(word);
            assert(texts(out@) =~= before@.push(word@));
            assert(texts(out@) + words(v@.skip(i as int)) =~= before@ + (seq![word@] + words(v@.skip(i as int))));
        }
    }
    assert(v@.skip(i as int) =~= Seq::empty());
    assert(texts(out@) + words(v@.skip(i as int)) =~= texts(out@));
    out
}

proof fn lemma_word_len(s: Seq<char>)
    ensures
        0 <= word_len(s) <= s.len(),
    decreases s.len(),
{
    if s.len() == 0 || is_white(s[0]) {
    } else {
        lemma_word_len(s.drop_first());
    }
}

/// The pieces joined with `sep`, as `[String]::join`.
pub fn join_texts(pieces: &Vec<String>, sep: &str) -> (r: String)
    ensures
        r@ == join(texts(pieces@), sep@),
{
    let mut out: String = String::new();
    let mut i: usize = 0;
    assert(texts(pieces@).take(0) =~= Seq::empty());
    while i < pieces.len()
        invariant
            i <= pieces@.len(),
            out@ == join(texts(pieces@).take(i as int), sep@),
        decreases pieces@.len() - i,
    {
        assert(texts(pieces@).take(i + 1).drop_last() =~= texts(pieces@).take(i as int));
        if i > 0 {
            out.append(sep);
        }
        out.append(pieces[i].as_str());
        if i == 0 {
            assert(out@ =~= texts(pieces@).take(1)[0]);
        }
        i += 1;
    }
    assert(texts(pieces@).take(i as int) =~= texts(pieces@));
    out
}

/// Add a text at the end.
pub fn push_text(v: &mut Vec<String>, s: &str)
    ensures
        texts(final(v)@) == texts(old(v)@).push(s@),
{
    let ghost before = texts(v@);
    let s: String = s.to_owned();
    v.push(s);
    assert(texts(v@) =~= before.push(s@));
}

/// One of the strings has this text.
pub fn texts_contain(v: &Vec<String>, s: &str) -> (r: bool)
    ensures
        r == texts(v@).contains(s@),
{
    let mut i: usize = 0;
    while i < v.len()
        invariant
            i <= v@.len(),
            forall|j: int| 0 <= j < i ==> #[trigger] v@[j]@ != s@,
        decreases v@.len() - i,
    {
        if str_eq(v[i].as_str(), s) {
            assert(texts(v@)[i as int] == s@);
            return true;
        }
        i += 1;
    }
    assert forall|j: int| 0 <= j < texts(v@).len() implies texts(v@)[j] != s@ by {
        assert(v@[j]@ != s@);
    }
    false
}

// ---------------------------------------------------------------------------
// Case, replacement, filtering
// ---------------------------------------------------------------------------

/// `char::to_ascii_lowercase`.
pub fn lower_char(c: char) -> (r: char)
    ensures
        r == lower(c),
{
    if 'A' <= c && c <= 'Z' {
        ((c as u8) + 32u8) as char
    } else {
        c
    }
}

/// `str::to_ascii_lowercase`.
pub fn lower_of(s: &str) -> (r: String)
    ensures
        r@ == lower_text(s@),
{
    let v: Vec<char> = chars_of(s);
    let mut out: String = String::new();
    let mut i: usize = 0;
    while i < v.len()
        invariant
            i <= v@.len(),
            out@ == lower_text(v@).take(i as int),
        decreases v@.len() - i,
    {
        out.push(lower_char(v[i]));
        i += 1;
        assert(out@ =~= lower_text(v@).take(i as int));
    }
    assert(lower_text(v@).take(i as int) =~= lower_text(v@));
    out
}

/// `str::eq_ignore_ascii_case`.
pub fn eq_ignore_case(a: &str, b: &str) -> (r: bool)
    ensures
        r == (lower_text(a@) == lower_text(b@)),
{
    let x: String = lower_of(a);
    let y: String = lower_of(b);
    x == y
}

/// `str::replace` of a character by a string.
pub fn replace_char(s: &str, c: char, by: &str) -> (r: String)
    ensures
        r@ == replace(s@, c, by@),
{
    let v: Vec<char> = chars_of(s);
    let mut out: String = String::new();
    let mut i: usize = 0;
    assert(v@.take(0) =~= Seq::empty());
    while i < v.len()
        invariant
            i <= v@.len(),
            out@ == replace(v@.take(i as int), c, by@),
        decreases v@.len() - i,
    {
        assert(v@.take(i + 1).drop_last() =~= v@.take(i as int));
        let before: Ghost<Seq<char>> = Ghost(out@);
        if v[i] == c {
            out.append(by);
        } else {
            out.push(v[i]);
            assert(out@ =~= before@ + seq![v@[i as int]]);
        }
        i += 1;
    }
    assert(v@.take(i as int) =~= v@);
    out
}

// ---------------------------------------------------------------------------
// Numbers
// ---------------------------------------------------------------------------

/// A decimal digit.
pub fn digit(c: char) -> (r: bool)
    ensures
        r == is_digit(c),
{
    '0' <= c && c <= '9'
}

proof fn lemma_digits_grow(s: Seq<char>, k: int)
    requires
        0 <= k <= s.len(),
        forall|i: int| 0 <= i < s.len() ==> is_digit(#[trigger] s[i]),
    ensures
        digits_value(s.take(k)) <= digits_value(s),
    decreases s.len(),
{
    if k == s.len() {
        assert(s.take(k) =~= s);
    } else {
        assert(s.drop_last().take(k) =~= s.take(k));
        assert forall|i: int| 0 <= i < s.drop_last().len() implies is_digit(#[trigger] s.drop_last()[i]) by {
            assert(s.drop_last()[i] == s[i]);
        }
        lemma_digits_grow(s.drop_last(), k);
    }
}

/// The digits `v[from..]` as a number no greater than `max`.
fn digits_from(v: &Vec<char>, from: usize, max: u64) -> (r: Option<u64>)
    requires
        from <= v@.len(),
    ensures
        match r {
            Some(n) => all_digits(v@.skip(from as int)) && n == digits_value(v@.skip(from as int)) && n <= max,
            None => !(all_digits(v@.skip(from as int)) && digits_value(v@.skip(from as int)) <= max),
        },
{
    let s: Ghost<Seq<char>> = Ghost(v@.skip(from as int));
    if from == v.len() {
        return None;
    }
    let mut i: usize = from;
    let mut acc: u64 = 0;
    assert(s@.take(0) =~= Seq::empty());
    while i < v.len()
        invariant
            from <= i <= v@.len(),
            s@ == v@.skip(from as int),
            acc <= max,
            acc == digits_value(s@.take(i - from)),
            forall|j: int| 0 <= j < i - from ==> is_digit(#[trigger] s@[j]),
        decreases v@.len() - i,
    {
        let c: char = v[i];
        assert(s@[i - from] == c);
        if !digit(c) {
            return None;
        }
        let d: u64 = (c as u32 - '0' as u32) as u64;
        assert(s@.take(i - from + 1).drop_last() =~= s@.take(i - from));
        assert(digits_value(s@.take(i - from + 1)) == acc * 10 + d);
        if acc > (u64::MAX - d) / 10 || acc * 10 + d > max {
            assert(digits_value(s@.take(i - from + 1)) > max);
            proof {
                if all_digits(s@) {
                    lemma_digits_grow(s@, i - from + 1);
                }
            }
            return None;
        }
        acc = acc * 10 + d;
        i += 1;
    }
    assert(s@.take(i - from) =~= s@);
    Some(acc)
}

/// `str::parse::<u64>`.
pub fn parse_u64(s: &str) -> (r: Option<u64>)
    ensures
        match r {
            Some(n) => parse_unsigned(s@, u64::MAX as nat) == Some(n as nat),
            None => parse_unsigned(s@, u64::MAX as nat) is None,
        },
{
    let v: Vec<char> = chars_of(s);
    if v.len() > 0 && v[0] == '+' {
        assert(v@.drop_first() =~= v@.skip(1));
        digits_from(&v, 1, u64::MAX)
    } else {
        assert(v@.skip(0) =~= v@);
        digits_from(&v, 0, u64::MAX)
    }
}

/// `str::parse::<i32>`.
pub fn parse_i32(s: &str) -> (r: Option<i32>)
    ensures
        match r {
            Some(n) => parse_signed32(s@) == Some(n as int),
            None => parse_signed32(s@) is None,
        },
{
    let v: Vec<char> = chars_of(s);
    if v.len() > 0 && v[0] == '-' {
        assert(v@.drop_first() =~= v@.skip(1));
        match digits_from(&v, 1, 0x8000_0000) {
            Some(n) => Some((-(n as i64)) as i32),
            None => None,
        }
    } else if v.len() > 0 && v[0] == '+' {
        assert(v@.drop_first() =~= v@.skip(1));
        match digits_from(&v, 1, 0x7fff_ffff) {
            Some(n) => Some(n as i32),
            None => None,
        }
    } else {
        assert(v@.skip(0) =~= v@);
        match digits_from(&v, 0, 0x7fff_ffff) {
            Some(n) => Some(n as i32),
            None => None,
        }
    }
}

/// The digit character of a value below ten.
fn digit_of(d: u64) -> (r: char)
    requires
        d < 10,
    ensures
        r == digit_char(d as nat),
{
    (48u8 + d as u8) as char
}

/// A number in decimal.
pub fn decimal_of(n: u64) -> (r: String)
    ensures
        r@ == decimal(n as nat),
    decreases n,
{
    if n < 10 {
        let mut out: String = String::new();
        out.push(digit_of(n));
        assert(out@ =~= seq![digit_char(n as nat)]);
        out
    } else {
        let mut out: String = decimal_of(n / 10);
        out.push(digit_of(n % 10));
        out
    }
}

/// A signed number in decimal.
pub fn signed_decimal_of(n: i64) -> (r: String)
    ensures
        r@ == signed_decimal(n as int),
{
    if n < 0 {
        let mut out: String = String::new();
        out.push('-');
        let m: u64 = if n == i64::MIN {
            0x8000_0000_0000_0000
        } else {
            (-n) as u64
        };
        let d: String = decimal_of(m);
        out.append(d.as_str());
        assert(out@ =~= seq!['-'] + decimal((-n) as nat));
        out
    } else {
        decimal_of(n as u64)
    }
}

// ---------------------------------------------------------------------------
// Order
// ---------------------------------------------------------------------------

/// `a < b` in code point order.
pub fn text_less(a: &str, b: &str) -> (r: bool)
    ensures
        r == lex_less(a@, b@),
{
    let x: Vec<char> = chars_of(a);
    let y: Vec<char> = chars_of(b);
    let mut i: usize = 0;
    assert(x@.skip(0) =~= x@);
    assert(y@.skip(0) =~= y@);
    while i < x.len() && i < y.len() && x[i] == y[i]
        invariant
            i <= x@.len(),
            i <= y@.len(),
            lex_less(x@, y@) == lex_less(x@.skip(i as int), y@.skip(i as int)),
        decreases x@.len() - i,
    {
        assert(x@.skip(i as int).drop_first() =~= x@.skip(i + 1));
        assert(y@.skip(i as int).drop_first() =~= y@.skip(i + 1));
        i += 1;
    }
    if i == y.len() {
        false
    } else if i == x.len() {
        true
    } else {
        let p: char = x[i];
        let q: char = y[i];
        p < q
    }
}

/// Nothing comes before itself.
pub proof fn lemma_lex_irreflexive(a: Seq<char>)
    ensures
        !lex_less(a, a),
    decreases a.len(),
{
    if a.len() > 0 {
        lemma_lex_irreflexive(a.drop_first());
    }
}

/// The order is transitive.
pub proof fn lemma_lex_transitive(a: Seq<char>, b: Seq<char>, c: Seq<char>)
    requires
        lex_less(a, b),
        lex_less(b, c),
    ensures
        lex_less(a, c),
    decreases a.len(),
{
    if a.len() > 0 && a[0] == b[0] && b[0] == c[0] {
        lemma_lex_transitive(a.drop_first(), b.drop_first(), c.drop_first());
    }
}

/// Two different texts are ordered one way or the other.
pub proof fn lemma_lex_total(a: Seq<char>, b: Seq<char>)
    ensures
        a == b || lex_less(a, b) || lex_less(b, a),
    decreases a.len(),
{
    if a.len() == 0 || b.len() == 0 {
        if a.len() == 0 && b.len() == 0 {
            assert(a =~= b);
        }
    } else if a[0] == b[0] {
        lemma_lex_total(a.drop_first(), b.drop_first());
        if a.drop_first() == b.drop_first() {
            assert(a =~= seq![a[0]] + a.drop_first());
            assert(b =~= seq![b[0]] + b.drop_first());
        }
    } else {
        assert(a[0] as int != b[0] as int);
    }
}

proof fn lemma_digit_value(d: nat)
    requires
        d < 10,
    ensures
        is_digit(digit_char(d)),
        digit_char(d) as u32 - '0' as u32 == d,
{
}

/// The decimal digits of a number read back as that number.
pub proof fn decimal_reads_back(n: nat)
    ensures
        digits_value(decimal(n)) == n,
        all_digits(decimal(n)),
    decreases n,
{
    reveal_with_fuel(digits_value, 2);
    if n < 10 {
        lemma_digit_value(n);
        assert(decimal(n).drop_last() =~= Seq::empty());
    } else {
        decimal_reads_back(n / 10);
        lemma_digit_value(n % 10);
        assert(decimal(n).drop_last() =~= decimal(n / 10));
        assert(decimal(n).last() == digit_char(n % 10));
    }
}

// ---------------------------------------------------------------------------
// What the primitives are for
// ---------------------------------------------------------------------------

/// The white space of ASCII: blank, tab, line feed, vertical tab, form feed
/// and carriage return, and no other character.
pub proof fn ascii_white_space(c: char)
    requires
        (c as u32) < 0x80,
    ensures
        is_white(c) <==> (c == ' ' || c == '\t' || c == '\n' || c as u32 == 0xb || c as u32 == 0xc
            || c == '\r'),
{
}

proof fn lemma_trim_start(s: Seq<char>) -> (i: int)
    ensures
        0 <= i <= s.len(),
        trim_start(s) == s.skip(i),
        forall|k: int| 0 <= k < i ==> is_white(#[trigger] s[k]),
        i < s.len() ==> !is_white(s[i]),
    decreases s.len(),
{
    if s.len() > 0 && is_white(s[0]) {
        let i = lemma_trim_start(s.drop_first());
        assert(s.drop_first().skip(i) =~= s.skip(i + 1));
        assert forall|k: int| 0 <= k < i + 1 implies is_white(#[trigger] s[k]) by {
            if k > 0 {
                assert(s.drop_first()[k - 1] == s[k]);
            }
        }
        i + 1
    } else {
        assert(s.skip(0) =~= s);
        0
    }
}

proof fn lemma_trim_end(s: Seq<char>) -> (j: int)
    ensures
        0 <= j <= s.len(),
        trim_end(s) == s.take(j),
        forall|k: int| j <= k < s.len() ==> is_white(#[trigger] s[k]),
        j > 0 ==> !is_white(s[j - 1]),
    decreases s.len(),
{
    if s.len() > 0 && is_white(s.last()) {
        let j = lemma_trim_end(s.drop_last());
        assert(s.drop_last().take(j) =~= s.take(j));
        assert forall|k: int| j <= k < s.len() implies is_white(#[trigger] s[k]) by {
            if k < s.len() - 1 {
                assert(s.drop_last()[k] == s[k]);
            }
        }
        j
    } else {
        assert(s.take(s.len() as int) =~= s);
        s.len() as int
    }
}

/// Trimming takes white space from both ends and nothing else: what is left is
/// a stretch of the text that has no white space at its ends.
pub proof fn trimming_takes_white_space_only(s: Seq<char>) -> (at: (int, int))
    ensures
        0 <= at.0 <= at.1 <= s.len(),
        trim(s) == s.subrange(at.0, at.1),
        forall|k: int| 0 <= k < s.len() && !(at.0 <= k < at.1) ==> is_white(#[trigger] s[k]),
        at.0 < at.1 ==> !is_white(s[at.0]) && !is_white(s[at.1 - 1]),
{
    let i = lemma_trim_start(s);
    let t = trim_start(s);
    let j = lemma_trim_end(t);
    assert(t.take(j) =~= s.subrange(i, i + j));
    assert forall|k: int| 0 <= k < s.len() && !(i <= k < i + j) implies is_white(
        #[trigger] s[k],
    ) by {
        if k >= i {
            assert(t[k - i] == s[k]);
        }
    }
    if j > 0 {
        assert(t[j - 1] == s[i + j - 1]);
        assert(i < s.len());
    }
    (i, i + j)
}

/// A text without white space at its ends is left as it is.
pub proof fn trimmed_texts_stay(s: Seq<char>)
    requires
        s.len() > 0 ==> !is_white(s[0]) && !is_white(s.last()),
    ensures
        trim(s) == s,
        trim_start(s) == s,
{
}

/// Splitting at the first or the last `c` takes the text apart there: put
/// together again with `c` between them the two sides are the text, and the
/// side towards its beginning (or its end) has no `c`. A text without `c` is
/// not split.
pub proof fn splits_read_back(s: Seq<char>, c: char)
    ensures
        match split_once(s, c) {
            Some((a, b)) => s == a + seq![c] + b && !a.contains(c),
            None => !s.contains(c),
        },
        match rsplit_once(s, c) {
            Some((a, b)) => s == a + seq![c] + b && !b.contains(c),
            None => !s.contains(c),
        },
{
    lemma_first_index(s, c);
    let i = first_index(s, c);
    if i < s.len() {
        assert(s =~= s.take(i) + seq![c] + s.skip(i + 1));
        assert(!s.take(i).contains(c)) by {
            if s.take(i).contains(c) {
                let k = choose|k: int| 0 <= k < i && s.take(i)[k] == c;
                assert(s[k] == c);
            }
        }
    }
    lemma_last(s, c);
    let j = last_index(s, c);
    if j >= 0 {
        assert(s =~= s.take(j) + seq![c] + s.skip(j + 1));
        assert(!s.skip(j + 1).contains(c)) by {
            if s.skip(j + 1).contains(c) {
                let tail = s.skip(j + 1);
                let k = choose|k: int| 0 <= k < tail.len() && tail[k] == c;
                assert(s[k + j + 1] == c);
            }
        }
    }
}

proof fn lemma_last(s: Seq<char>, c: char)
    ensures
        -1 <= last_index(s, c) < s.len(),
        last_index(s, c) >= 0 ==> s[last_index(s, c)] == c,
        forall|j: int| last_index(s, c) < j < s.len() ==> s[j] != c,
    decreases s.len(),
{
    if s.len() == 0 || s.last() == c {
    } else {
        lemma_last(s.drop_last(), c);
        assert forall|j: int| last_index(s, c) < j < s.len() implies s[j] != c by {
            if j < s.len() - 1 {
                assert(s.drop_last()[j] == s[j]);
            }
        }
    }
}

/// A line of a listing: it has no line feed, and no carriage return at its end
/// that could be taken for a part of the line ending.
pub open spec fn is_line(line: Seq<char>) -> bool {
    !line.contains('\n') && (line.len() > 0 ==> line.last() != '\r')
}

/// A listing: each line, and what ends it.
pub open spec fn listing(all: Seq<Seq<char>>, ending: Seq<char>) -> Seq<char>
    decreases all.len(),
{
    if all.len() == 0 {
        Seq::empty()
    } else {
        all[0] + ending + listing(all.drop_first(), ending)
    }
}

/// The lines of a listing are read back as they were written, also the last
/// one where its ending is missing, whether the lines end in a line feed or in
/// a carriage return and a line feed.
pub proof fn lines_read_back(all: Seq<Seq<char>>, rest: Seq<char>)
    requires
        forall|i: int| 0 <= i < all.len() ==> is_line(#[trigger] all[i]),
        !rest.contains('\n'),
    ensures
        ({
            let expected = if rest.len() > 0 {
                all.push(rest)
            } else {
                all
            };
            &&& lines(listing(all, seq!['\n']) + rest) == expected
            &&& lines(listing(all, seq!['\r', '\n']) + rest) == expected
        }),
    decreases all.len(),
{
    let lf = seq!['\n'];
    let crlf = seq!['\r', '\n'];
    if all.len() == 0 {
        assert(listing(all, lf) + rest =~= rest);
        assert(listing(all, crlf) + rest =~= rest);
        lemma_first_index(rest, '\n');
        if rest.len() > 0 {
            assert(lines(rest) =~= all.push(rest));
        } else {
            assert(lines(rest) =~= all);
        }
    } else {
        let line = all[0];
        let more = all.drop_first();
        assert forall|i: int| 0 <= i < more.len() implies is_line(#[trigger] more[i]) by {
            assert(more[i] == all[i + 1]);
        }
        lines_read_back(more, rest);
        let a = listing(all, lf) + rest;
        let b = listing(all, crlf) + rest;
        assert(a =~= line + lf + (listing(more, lf) + rest));
        assert(b =~= line + crlf + (listing(more, crlf) + rest));
        lemma_first_index(a, '\n');
        lemma_first_index(b, '\n');
        let n = line.len() as int;
        assert(a[n] == '\n');
        assert(b[n] == '\r');
        assert(b[n + 1] == '\n');
        assert forall|k: int| 0 <= k < n implies line[k] != '\n' by {
            if line[k] == '\n' {
                assert(line.contains('\n'));
            }
        }
        assert forall|k: int| 0 <= k < n implies a[k] != '\n' && b[k] != '\n' by {
            assert(a[k] == line[k] && b[k] == line[k]);
        }
        assert(first_index(a, '\n') == n);
        assert(first_index(b, '\n') == n + 1);
        assert(a.take(n) =~= line);
        assert(b.take(n + 1) =~= line.push('\r'));
        assert(line.push('\r').drop_last() =~= line);
        assert(a.skip(n + 1) =~= listing(more, lf) + rest);
        assert(b.skip(n + 2) =~= listing(more, crlf) + rest);
        let expected = if rest.len() > 0 {
            all.push(rest)
        } else {
            all
        };
        let tail = if rest.len() > 0 {
            more.push(rest)
        } else {
            more
        };
        assert(seq![line] + tail =~= expected);
    }
}

/// Joining two runs of pieces joins each, with the separator between them.
pub proof fn joins_are_made_of_joins(a: Seq<Seq<char>>, b: Seq<Seq<char>>, sep: Seq<char>)
    requires
        a.len() > 0,
        b.len() > 0,
    ensures
        join(a + b, sep) == join(a, sep) + sep + join(b, sep),
        a.len() == 1 ==> join(a, sep) == a[0],
    decreases b.len(),
{
    assert((a + b).drop_last() =~= a + b.drop_last());
    assert((a + b).last() == b.last());
    if b.len() == 1 {
        assert(a + b.drop_last() =~= a);
    } else {
        joins_are_made_of_joins(a, b.drop_last(), sep);
        assert(join(a + b, sep) =~= join(a, sep) + sep + join(b, sep));
    }
}

/// Replacing goes character by character.
pub proof fn replacing_goes_by_characters(a: Seq<char>, b: Seq<char>, c: char, by: Seq<char>)
    ensures
        replace(a + b, c, by) == replace(a, c, by) + replace(b, c, by),
        replace(seq![c], c, by) == by,
        !a.contains(c) ==> replace(a, c, by) == a,
    decreases a.len() + b.len(),
{
    reveal_with_fuel(replace, 2);
    assert(seq![c].drop_last() =~= Seq::empty());
    assert(replace(seq![c], c, by) =~= by);
    if b.len() == 0 {
        assert(a + b =~= a);
        assert(replace(a, c, by) + replace(b, c, by) =~= replace(a, c, by));
        if a.len() > 0 && !a.contains(c) {
            let init = a.drop_last();
            assert(!init.contains(c)) by {
                if init.contains(c) {
                    let k = choose|k: int| 0 <= k < init.len() && init[k] == c;
                    assert(a[k] == c);
                }
            }
            replacing_goes_by_characters(init, b, c, by);
            assert(a[a.len() - 1] == a.last());
            assert(replace(a, c, by) =~= a);
        }
    } else {
        replacing_goes_by_characters(a, b.drop_last(), c, by);
        assert((a + b).drop_last() =~= a + b.drop_last());
        assert((a + b).last() == b.last());
        assert(replace(a + b, c, by) =~= replace(a, c, by) + replace(b, c, by));
    }
}

/// A number is read from its decimal digits, with or without a plus sign; what
/// is too large, empty or has another character is no number.
pub proof fn numbers_read_back(n: nat, max: nat, s: Seq<char>, i: int)
    ensures
        n <= max ==> parse_unsigned(decimal(n), max) == Some(n) && parse_unsigned(
            seq!['+'] + decimal(n),
            max,
        ) == Some(n),
        n > max ==> parse_unsigned(decimal(n), max) is None,
        parse_unsigned(Seq::empty(), max) is None,
        0 <= i < s.len() && !('0' <= s[i] <= '9') && !(i == 0 && s[i] == '+') ==> parse_unsigned(
            s,
            max,
        ) is None,
{
    decimal_reads_back(n);
    assert(decimal(n)[0] != '+') by {
        assert(is_digit(decimal(n)[0]));
    }
    assert((seq!['+'] + decimal(n)).drop_first() =~= decimal(n));
    if 0 <= i < s.len() && !('0' <= s[i] <= '9') && !(i == 0 && s[i] == '+') {
        if s[0] == '+' {
            assert(s.drop_first()[i - 1] == s[i]);
        }
    }
}

/// Capital letters of ASCII become small ones, and nothing else changes; what
/// differs in case only is the same in lower case.
pub proof fn lower_case_is_ascii(s: Seq<char>, i: int)
    requires
        0 <= i < s.len(),
    ensures
        lower_text(s).len() == s.len(),
        'A' <= s[i] <= 'Z' ==> lower_text(s)[i] as u32 == s[i] as u32 + 32,
        !('A' <= s[i] <= 'Z') ==> lower_text(s)[i] == s[i],
        lower_text(lower_text(s)) == lower_text(s),
{
    let c = s[i];
    assert forall|k: int| 0 <= k < s.len() implies lower_text(lower_text(s))[k] == lower_text(
        s,
    )[k] by {
        lemma_lower(s[k]);
    }
    assert(lower_text(lower_text(s)) =~= lower_text(s));
    lemma_lower(c);
}

proof fn lemma_lower(c: char)
    ensures
        lower(lower(c)) == lower(c),
        'A' <= c <= 'Z' ==> lower(c) as u32 == c as u32 + 32,
{
}

/// A text that has a phrase somewhere contains it, and starts with it where
/// nothing stands before it.
pub proof fn phrases_are_found(a: Seq<char>, p: Seq<char>, b: Seq<char>)
    ensures
        contains(a + p + b, p),
        starts_with(p + b, p),
{
    assert((a + p + b).subrange(a.len() as int, (a.len() + p.len()) as int) =~= p);
    assert(occurs_at(a + p + b, p, a.len() as int));
    assert((p + b).take(p.len() as int) =~= p);
}

/// Texts are ordered by the first character in which they differ, and one that
/// another goes on from comes before it.
pub proof fn texts_order_by_their_first_difference(p: Seq<char>, a: Seq<char>, b: Seq<char>)
    ensures
        a.len() > 0 && b.len() > 0 && a[0] as int != b[0] as int ==> (lex_less(p + a, p + b) <==> (
        a[0] as int) < (b[0] as int)),
        b.len() > 0 ==> lex_less(p, p + b) && !lex_less(p + b, p),
        !lex_less(p, p),
    decreases p.len(),
{
    if p.len() == 0 {
        assert(p + a =~= a);
        assert(p + b =~= b);
    } else {
        let q = p.drop_first();
        texts_order_by_their_first_difference(q, a, b);
        assert((p + a).drop_first() =~= q + a);
        assert((p + b).drop_first() =~= q + b);
        assert((p + a)[0] == p[0] && (p + b)[0] == p[0]);
    }
}

/// Words are read one by one: white space before a word is passed over, and a
/// word ends at the white space behind it or at the end of the text.
pub proof fn words_are_read_one_by_one(blank: char, word: Seq<char>, rest: Seq<char>)
    requires
        is_white(blank),
        word.len() > 0,
        forall|i: int| 0 <= i < word.len() ==> !is_white(#[trigger] word[i]),
    ensures
        words(seq![blank] + rest) == words(rest),
        words(word + seq![blank] + rest) == seq![word] + words(rest),
        words(word) == seq![word],
        words(Seq::empty()) == Seq::<Seq<char>>::empty(),
{
    let s = seq![blank] + rest;
    assert(s.drop_first() =~= rest);
    let t = word + seq![blank] + rest;
    lemma_word_end(word, seq![blank] + rest);
    assert(t =~= word + (seq![blank] + rest));
    assert(t[0] == word[0]);
    assert(t.take(word.len() as int) =~= word);
    assert(t.skip(word.len() as int) =~= s);
    let none = Seq::<char>::empty();
    lemma_word_end(word, none);
    assert(word + none =~= word);
    assert(word.take(word.len() as int) =~= word);
    assert(word.skip(word.len() as int) =~= none);
    assert(words(none) =~= Seq::empty());
    assert(words(word) =~= seq![word]);
}

proof fn lemma_word_end(word: Seq<char>, rest: Seq<char>)
    requires
        forall|i: int| 0 <= i < word.len() ==> !is_white(#[trigger] word[i]),
        rest.len() > 0 ==> is_white(rest[0]),
    ensures
        word_len(word + rest) == word.len(),
    decreases word.len(),
{
    let s = word + rest;
    if word.len() == 0 {
        assert(s =~= rest);
    } else {
        let more = word.drop_first();
        assert forall|i: int| 0 <= i < more.len() implies !is_white(#[trigger] more[i]) by {
            assert(more[i] == word[i + 1]);
        }
        lemma_word_end(more, rest);
        assert(s.drop_first() =~= more + rest);
        assert(s[0] == word[0]);
    }
}

/// A signed number is read back as it was written; a text with anything but
/// digits behind its sign is no number.
pub proof fn signed_numbers_read_back(n: int, s: Seq<char>, i: int)
    ensures
        i32::MIN <= n <= i32::MAX ==> parse_signed32(signed_decimal(n)) == Some(n),
        0 < i < s.len() && !('0' <= s[i] <= '9') ==> parse_signed32(s) is None,
        s.len() > 0 && !('0' <= s[0] <= '9') && s[0] != '-' && s[0] != '+' ==> parse_signed32(s)
            is None,
{
    if i32::MIN <= n <= i32::MAX {
        if n < 0 {
            decimal_reads_back((-n) as nat);
            assert(signed_decimal(n).drop_first() =~= decimal((-n) as nat));
        } else {
            numbers_read_back(n as nat, i32::MAX as nat, s, 0);
            decimal_reads_back(n as nat);
            assert(is_digit(decimal(n as nat)[0]));
        }
    }
    if 0 < i < s.len() && !('0' <= s[i] <= '9') {
        assert(s.drop_first()[i - 1] == s[i]);
        numbers_read_back(0, i32::MAX as nat, s, i);
    }
    if s.len() > 0 && !('0' <= s[0] <= '9') && s[0] != '-' && s[0] != '+' {
        numbers_read_back(0, i32::MAX as nat, s, 0);
    }
}

/// What is found stands there: a text that contains a phrase has it between
/// what comes before and what comes behind, and one that starts with it goes on
/// behind it.
pub proof fn found_phrases_stand_there(s: Seq<char>, p: Seq<char>) -> (parts: (Seq<char>, Seq<char>))
    ensures
        contains(s, p) ==> s == parts.0 + p + parts.1,
        starts_with(s, p) ==> s == p + s.skip(p.len() as int),
{
    if starts_with(s, p) {
        assert(s =~= s.take(p.len() as int) + s.skip(p.len() as int));
    }
    if contains(s, p) {
        let i = choose|i: int| occurs_at(s, p, i);
        assert(s =~= s.take(i) + s.subrange(i, i + p.len()) + s.skip(i + p.len()));
        (s.take(i), s.skip(i + p.len()))
    } else {
        (s, s)
    }
}

} // verus!
