//! Character-level helpers: whitespace, trimming, line splitting, decimal
//! rendering and the building of strings out of character vectors.
use vstd::prelude::*;

verus! {

/// Unicode `White_Space`, the set that `char::is_whitespace` and `str::trim` use.
pub open spec fn is_ws(c: char) -> bool {
    let u = c as u32;
    (0x9 <= u && u <= 0xD) || u == 0x20 || u == 0x85 || u == 0xA0 || u == 0x1680 || (0x2000 <= u
        && u <= 0x200A) || u == 0x2028 || u == 0x2029 || u == 0x202F || u == 0x205F || u == 0x3000
}

pub fn is_whitespace(c: char) -> (r: bool)
    ensures
        r == is_ws(c),
{
    let u = c as u32;
    (0x9 <= u && u <= 0xD) || u == 0x20 || u == 0x85 || u == 0xA0 || u == 0x1680 || (0x2000 <= u
        && u <= 0x200A) || u == 0x2028 || u == 0x2029 || u == 0x202F || u == 0x205F || u == 0x3000
}

pub open spec fn trim_start(s: Seq<char>) -> Seq<char>
    decreases s.len(),
{
    if s.len() > 0 && is_ws(s[0]) {
        trim_start(s.drop_first())
    } else {
        s
    }
}

pub open spec fn trim_end(s: Seq<char>) -> Seq<char>
    decreases s.len(),
{
    if s.len() > 0 && is_ws(s.last()) {
        trim_end(s.drop_last())
    } else {
        s
    }
}

pub open spec fn trim(s: Seq<char>) -> Seq<char> {
    trim_end(trim_start(s))
}

pub open spec fn starts_with(s: Seq<char>, p: Seq<char>) -> bool {
    p.len() <= s.len() && s.subrange(0, p.len() as int) == p
}

pub open spec fn has_char(s: Seq<char>, c: char) -> bool {
    exists|i: int| 0 <= i < s.len() && s[i] == c
}

/// Whether the sequence holds no whitespace at all.
pub open spec fn no_ws(s: Seq<char>) -> bool {
    forall|i: int| 0 <= i < s.len() ==> !is_ws(#[trigger] s[i])
}

proof fn lemma_trim_start_skip(s: Seq<char>, i: int)
    requires
        0 <= i < s.len(),
        is_ws(s[i]),
    ensures
        trim_start(s.subrange(i, s.len() as int)) == trim_start(s.subrange(i + 1, s.len() as int)),
{
    assert(s.subrange(i, s.len() as int).drop_first() =~= s.subrange(i + 1, s.len() as int));
}

proof fn lemma_trim_end_skip(s: Seq<char>, a: int, j: int)
    requires
        0 <= a < j <= s.len(),
        is_ws(s[j - 1]),
    ensures
        trim_end(s.subrange(a, j)) == trim_end(s.subrange(a, j - 1)),
{
    assert(s.subrange(a, j).drop_last() =~= s.subrange(a, j - 1));
}

/// Start and end of `s[from..to]` with surrounding whitespace removed.
pub fn trim_bounds(s: &[char], from: usize, to: usize) -> (r: (usize, usize))
    requires
        from <= to <= s@.len(),
    ensures
        from <= r.0 <= r.1 <= to,
        s@.subrange(r.0 as int, r.1 as int) == trim(s@.subrange(from as int, to as int)),
        s@.subrange(r.0 as int, to as int) == trim_start(s@.subrange(from as int, to as int)),
{
    let mut a = from;
    while a < to && is_whitespace(s[a])
        invariant
            from <= a <= to <= s@.len(),
            trim_start(s@.subrange(from as int, to as int)) == trim_start(
                s@.subrange(a as int, to as int),
            ),
        decreases to - a,
    {
        proof {
            let t = s@.subrange(from as int, to as int);
            lemma_trim_start_skip(s@.subrange(0, to as int), a as int);
            assert(s@.subrange(0, to as int).subrange(a as int, to as int) =~= s@.subrange(
                a as int,
                to as int,
            ));
            assert(s@.subrange(0, to as int).subrange(a + 1, to as int) =~= s@.subrange(
                a + 1,
                to as int,
            ));
        }
        a = a + 1;
    }
    proof {
        let u = s@.subrange(a as int, to as int);
        if u.len() > 0 {
            assert(u[0] == s@[a as int]);
        }
    }
    let mut b = to;
    while b > a && is_whitespace(s[b - 1])
        invariant
            from <= a <= b <= to <= s@.len(),
            trim_start(s@.subrange(from as int, to as int)) == s@.subrange(a as int, to as int),
            trim(s@.subrange(from as int, to as int)) == trim_end(s@.subrange(a as int, b as int)),
        decreases b - a,
    {
        proof {
            lemma_trim_end_skip(s@, a as int, b as int);
        }
        b = b - 1;
    }
    proof {
        let u = s@.subrange(a as int, b as int);
        if u.len() > 0 {
            assert(u.last() == s@[b - 1]);
        }
    }
    (a, b)
}

/// Whether `s[from..to]` begins with the characters of `p`.
pub fn starts_with_at(s: &[char], from: usize, to: usize, p: &str) -> (r: bool)
    requires
        from <= to <= s@.len(),
    ensures
        r == starts_with(s@.subrange(from as int, to as int), p@),
{
    let n = p.unicode_len();
    if n > to - from {
        return false;
    }
    let mut i: usize = 0;
    while i < n
        invariant
            n == p@.len(),
            from + n <= to <= s@.len(),
            i <= n,
            forall|k: int| 0 <= k < i ==> s@[from + k] == p@[k],
        decreases n - i,
    {
        if s[from + i] != p.get_char(i) {
            proof {
                assert(s@.subrange(from as int, to as int).subrange(0, n as int)[i as int] != p@[i as int]);
            }
            return false;
        }
        i = i + 1;
    }
    proof {
        assert(s@.subrange(from as int, to as int).subrange(0, n as int) =~= p@);
    }
    true
}

/// Whether `s[from..to]` is exactly the characters of `p`.
pub fn equals_at(s: &[char], from: usize, to: usize, p: &str) -> (r: bool)
    requires
        from <= to <= s@.len(),
    ensures
        r == (s@.subrange(from as int, to as int) == p@),
{
    let n = p.unicode_len();
    if n != to - from {
        proof {
            assert(s@.subrange(from as int, to as int).len() != p@.len());
        }
        return false;
    }
    let r = starts_with_at(s, from, to, p);
    proof {
        assert(s@.subrange(from as int, to as int).subrange(0, n as int) =~= s@.subrange(
            from as int,
            to as int,
        ));
    }
    r
}

/// Index of the first occurrence of `c` in `s[from..to]`, or `to`.
pub fn find_char(s: &[char], from: usize, to: usize, c: char) -> (r: usize)
    requires
        from <= to <= s@.len(),
    ensures
        from <= r <= to,
        forall|k: int| from <= k < r ==> s@[k] != c,
        r < to ==> s@[r as int] == c,
{
    let mut i = from;
    while i < to && s[i] != c
        invariant
            from <= i <= to <= s@.len(),
            forall|k: int| from <= k < i ==> s@[k] != c,
        decreases to - i,
    {
        i = i + 1;
    }
    i
}

/// Index of the first whitespace character in `s[from..to]`, or `to`.
pub fn find_ws(s: &[char], from: usize, to: usize) -> (r: usize)
    requires
        from <= to <= s@.len(),
    ensures
        from <= r <= to,
        forall|k: int| from <= k < r ==> !is_ws(s@[k]),
        r < to ==> is_ws(s@[r as int]),
{
    let mut i = from;
    while i < to && !is_whitespace(s[i])
        invariant
            from <= i <= to <= s@.len(),
            forall|k: int| from <= k < i ==> !is_ws(s@[k]),
        decreases to - i,
    {
        i = i + 1;
    }
    i
}

/// Index of the first character of `s[from..to]` that is not whitespace, or `to`.
pub fn skip_ws(s: &[char], from: usize, to: usize) -> (r: usize)
    requires
        from <= to <= s@.len(),
    ensures
        from <= r <= to,
        forall|k: int| from <= k < r ==> is_ws(s@[k]),
        r < to ==> !is_ws(s@[r as int]),
{
    let mut i = from;
    while i < to && is_whitespace(s[i])
        invariant
            from <= i <= to <= s@.len(),
            forall|k: int| from <= k < i ==> is_ws(s@[k]),
        decreases to - i,
    {
        i = i + 1;
    }
    i
}

/// Index of the first line feed at or after `i`, or the length of `s`.
pub open spec fn find_nl(s: Seq<char>, i: int) -> int
    decreases s.len() - i,
{
    if i < 0 || i >= s.len() {
        s.len() as int
    } else if s[i] == '\n' {
        i
    } else {
        find_nl(s, i + 1)
    }
}

pub proof fn lemma_find_nl_bounds(s: Seq<char>, i: int)
    requires
        0 <= i,
    ensures
        i <= find_nl(s, i) <= s.len() || (i > s.len() && find_nl(s, i) == s.len()),
    decreases s.len() - i,
{
    if i < s.len() && s[i] != '\n' {
        lemma_find_nl_bounds(s, i + 1);
    }
}

/// `find_nl` agrees with a scan that found no line feed in `s[i..k]`.
pub proof fn lemma_find_nl_is(s: Seq<char>, i: int, k: int)
    requires
        0 <= i <= k <= s.len(),
        forall|j: int| i <= j < k ==> s[j] != '\n',
        k < s.len() ==> s[k] == '\n',
    ensures
        find_nl(s, i) == k,
    decreases k - i,
{
    if i < k {
        lemma_find_nl_is(s, i + 1, k);
    }
}

/// A line without the carriage return that ends a `\r\n` terminator.
pub open spec fn strip_cr(l: Seq<char>) -> Seq<char> {
    if l.len() > 0 && l.last() == '\r' {
        l.drop_last()
    } else {
        l
    }
}

#[via_fn]
proof fn lines_from_decreases(s: Seq<char>, p: int) {
    if 0 <= p < s.len() {
        lemma_find_nl_bounds(s, p);
    }
}

/// The lines of `s` from position `p` on, as `str::lines` yields them: split
/// at `\n`, a `\r` before it dropped, no empty line after a final `\n`.
pub open spec fn lines_from(s: Seq<char>, p: int) -> Seq<Seq<char>>
    decreases s.len() - p,
    via lines_from_decreases
{
    if p < 0 || p >= s.len() {
        seq![]
    } else {
        let k = find_nl(s, p);
        if k >= s.len() {
            seq![s.subrange(p, s.len() as int)]
        } else {
            seq![strip_cr(s.subrange(p, k))] + lines_from(s, k + 1)
        }
    }
}

pub open spec fn lines_of(s: Seq<char>) -> Seq<Seq<char>> {
    lines_from(s, 0)
}

/// The line that starts at `p`: its end, and where the next line starts.
pub fn next_line(s: &[char], p: usize) -> (r: (usize, usize))
    requires
        p < s@.len(),
    ensures
        p <= r.0 <= r.1 <= s@.len(),
        p < r.1,
        lines_from(s@, p as int) == seq![s@.subrange(p as int, r.0 as int)] + lines_from(
            s@,
            r.1 as int,
        ),
{
    let n = s.len();
    let k = find_char(s, p, n, '\n');
    proof {
        lemma_find_nl_is(s@, p as int, k as int);
    }
    if k == n {
        proof {
            assert(lines_from(s@, n as int) =~= seq![]);
            assert(seq![s@.subrange(p as int, n as int)] + lines_from(s@, n as int) =~= seq![
                s@.subrange(p as int, n as int),
            ]);
        }
        (n, n)
    } else if k > p && s[k - 1] == '\r' {
        proof {
            assert(s@.subrange(p as int, k as int).drop_last() =~= s@.subrange(p as int, k - 1));
        }
        (k - 1, k + 1)
    } else {
        (k, k + 1)
    }
}

/// Index of the first `c` at or after `i`, or the length of `s`.
pub open spec fn index_of_from(s: Seq<char>, c: char, i: int) -> int
    decreases s.len() - i,
{
    if i < 0 || i >= s.len() {
        s.len() as int
    } else if s[i] == c {
        i
    } else {
        index_of_from(s, c, i + 1)
    }
}

/// Index of the first whitespace character at or after `i`, or the length of `s`.
pub open spec fn ws_from(s: Seq<char>, i: int) -> int
    decreases s.len() - i,
{
    if i < 0 || i >= s.len() {
        s.len() as int
    } else if is_ws(s[i]) {
        i
    } else {
        ws_from(s, i + 1)
    }
}

/// Index of the first character that is not whitespace at or after `i`, or
/// the length of `s`.
pub open spec fn non_ws_from(s: Seq<char>, i: int) -> int
    decreases s.len() - i,
{
    if i < 0 || i >= s.len() {
        s.len() as int
    } else if !is_ws(s[i]) {
        i
    } else {
        non_ws_from(s, i + 1)
    }
}

pub proof fn lemma_index_of_from_is(s: Seq<char>, c: char, i: int, k: int)
    requires
        0 <= i <= k <= s.len(),
        forall|j: int| i <= j < k ==> s[j] != c,
        k < s.len() ==> s[k] == c,
    ensures
        index_of_from(s, c, i) == k,
    decreases k - i,
{
    if i < k {
        lemma_index_of_from_is(s, c, i + 1, k);
    }
}

pub proof fn lemma_ws_from_is(s: Seq<char>, i: int, k: int)
    requires
        0 <= i <= k <= s.len(),
        forall|j: int| i <= j < k ==> !is_ws(s[j]),
        k < s.len() ==> is_ws(s[k]),
    ensures
        ws_from(s, i) == k,
    decreases k - i,
{
    if i < k {
        lemma_ws_from_is(s, i + 1, k);
    }
}

pub proof fn lemma_non_ws_from_is(s: Seq<char>, i: int, k: int)
    requires
        0 <= i <= k <= s.len(),
        forall|j: int| i <= j < k ==> is_ws(s[j]),
        k < s.len() ==> !is_ws(s[k]),
    ensures
        non_ws_from(s, i) == k,
    decreases k - i,
{
    if i < k {
        lemma_non_ws_from_is(s, i + 1, k);
    }
}

/// `index_of_from` computed.
pub fn index_of(s: &[char], c: char, from: usize) -> (r: usize)
    requires
        from <= s@.len(),
    ensures
        r == index_of_from(s@, c, from as int),
        from <= r <= s@.len(),
{
    let r = find_char(s, from, s.len(), c);
    proof {
        lemma_index_of_from_is(s@, c, from as int, r as int);
    }
    r
}

/// `ws_from` computed.
pub fn ws_index(s: &[char], from: usize) -> (r: usize)
    requires
        from <= s@.len(),
    ensures
        r == ws_from(s@, from as int),
        from <= r <= s@.len(),
{
    let r = find_ws(s, from, s.len());
    proof {
        lemma_ws_from_is(s@, from as int, r as int);
    }
    r
}

/// `non_ws_from` computed.
pub fn non_ws_index(s: &[char], from: usize) -> (r: usize)
    requires
        from <= s@.len(),
    ensures
        r == non_ws_from(s@, from as int),
        from <= r <= s@.len(),
{
    let r = skip_ws(s, from, s.len());
    proof {
        lemma_non_ws_from_is(s@, from as int, r as int);
    }
    r
}

/// A copy of `s[from..to]`.
pub fn copy_range(s: &[char], from: usize, to: usize) -> (r: Vec<char>)
    requires
        from <= to <= s@.len(),
    ensures
        r@ == s@.subrange(from as int, to as int),
{
    let mut v: Vec<char> = Vec::new();
    push_range(&mut v, s, from, to);
    proof {
        assert(v@ =~= s@.subrange(from as int, to as int));
    }
    v
}

/// Whether `s[from..to]` equals `p`.
pub fn range_equals(s: &[char], from: usize, to: usize, p: &[char]) -> (r: bool)
    requires
        from <= to <= s@.len(),
    ensures
        r == (s@.subrange(from as int, to as int) == p@),
{
    if to - from != p.len() {
        proof {
            assert(s@.subrange(from as int, to as int).len() != p@.len());
        }
        return false;
    }
    let mut i: usize = 0;
    while i < p.len()
        invariant
            from + p@.len() == to <= s@.len(),
            i <= p@.len(),
            forall|k: int| 0 <= k < i ==> s@[from + k] == p@[k],
        decreases p@.len() - i,
    {
        if s[from + i] != p[i] {
            proof {
                assert(s@.subrange(from as int, to as int)[i as int] != p@[i as int]);
            }
            return false;
        }
        i = i + 1;
    }
    proof {
        assert(s@.subrange(from as int, to as int) =~= p@);
    }
    true
}

/// A new string with the characters of `s`.
pub fn string_of_str(s: &str) -> (r: String)
    ensures
        r@ == s@,
{
    let cs = chars_of(s);
    string_from(cs.as_slice())
}

/// Length of `s` once trailing whitespace is removed.
pub fn trim_end_len(s: &[char]) -> (r: usize)
    ensures
        r <= s@.len(),
        s@.subrange(0, r as int) == trim_end(s@),
{
    let mut b = s.len();
    proof {
        assert(s@.subrange(0, b as int) =~= s@);
    }
    while b > 0 && is_whitespace(s[b - 1])
        invariant
            b <= s@.len(),
            trim_end(s@) == trim_end(s@.subrange(0, b as int)),
        decreases b,
    {
        proof {
            lemma_trim_end_skip(s@, 0, b as int);
        }
        b = b - 1;
    }
    proof {
        let u = s@.subrange(0, b as int);
        if u.len() > 0 {
            assert(u.last() == s@[b - 1]);
        }
    }
    b
}

/// The decimal digit for `d < 10`.
pub open spec fn digit(d: nat) -> char {
    if d == 0 {
        '0'
    } else if d == 1 {
        '1'
    } else if d == 2 {
        '2'
    } else if d == 3 {
        '3'
    } else if d == 4 {
        '4'
    } else if d == 5 {
        '5'
    } else if d == 6 {
        '6'
    } else if d == 7 {
        '7'
    } else if d == 8 {
        '8'
    } else {
        '9'
    }
}

/// Decimal rendering of a natural number, without sign or leading zeros.
pub open spec fn dec(n: nat) -> Seq<char>
    decreases n,
{
    if n < 10 {
        seq![digit(n)]
    } else {
        dec(n / 10).push(digit(n % 10))
    }
}

pub fn push_digit(v: &mut Vec<char>, d: u64)
    requires
        d < 10,
    ensures
        final(v)@ == old(v)@.push(digit(d as nat)),
{
    let c = if d == 0 {
        '0'
    } else if d == 1 {
        '1'
    } else if d == 2 {
        '2'
    } else if d == 3 {
        '3'
    } else if d == 4 {
        '4'
    } else if d == 5 {
        '5'
    } else if d == 6 {
        '6'
    } else if d == 7 {
        '7'
    } else if d == 8 {
        '8'
    } else {
        '9'
    };
    v.push(c);
}

/// Appends the decimal rendering of `n`.
pub fn push_dec(v: &mut Vec<char>, n: u64)
    ensures
        final(v)@ == old(v)@ + dec(n as nat),
    decreases n,
{
    if n >= 10 {
        push_dec(v, n / 10);
        push_digit(v, n % 10);
        proof {
            assert(final(v)@ =~= old(v)@ + dec(n as nat));
        }
    } else {
        push_digit(v, n);
        proof {
            assert(final(v)@ =~= old(v)@ + dec(n as nat));
        }
    }
}

/// Appends `s[from..to]`.
pub fn push_range(v: &mut Vec<char>, s: &[char], from: usize, to: usize)
    requires
        from <= to <= s@.len(),
    ensures
        final(v)@ == old(v)@ + s@.subrange(from as int, to as int),
{
    let ghost start = v@;
    let mut i = from;
    while i < to
        invariant
            from <= i <= to <= s@.len(),
            v@ == start + s@.subrange(from as int, i as int),
        decreases to - i,
    {
        v.push(s[i]);
        proof {
            assert(v@ =~= start + s@.subrange(from as int, i + 1));
        }
        i = i + 1;
    }
}

/// Appends every character of `s`.
pub fn push_all(v: &mut Vec<char>, s: &[char])
    ensures
        final(v)@ == old(v)@ + s@,
{
    push_range(v, s, 0, s.len());
    proof {
        assert(s@.subrange(0, s@.len() as int) =~= s@);
    }
}

/// Appends the characters of a string slice.
pub fn push_str(v: &mut Vec<char>, s: &str)
    ensures
        final(v)@ == old(v)@ + s@,
{
    let cs = chars_of(s);
    push_all(v, cs.as_slice());
}

/// The characters of `s`, in order.
pub fn chars_of(s: &str) -> (r: Vec<char>)
    ensures
        r@ == s@,
{
    let mut r: Vec<char> = Vec::new();
    for c in it: s.chars()
        invariant
            it.seq() == s@,
            r@ == it.seq().subrange(0, it.index() as int),
    {
        r.push(c);
    }
    r
}

/// Relies on `String::from_iter` (`FromIterator<&char>` for `String`): the
/// string holds the given characters, in order.
#[verifier::external_body]
pub(crate) fn string_from(cs: &[char]) -> (r: String)
    ensures
        r@ == cs@,
{
    String::from_iter(cs)
}

/// `s[from..to]` as a new string.
pub fn string_of_range(s: &[char], from: usize, to: usize) -> (r: String)
    requires
        from <= to <= s@.len(),
    ensures
        r@ == s@.subrange(from as int, to as int),
{
    let mut v: Vec<char> = Vec::new();
    push_range(&mut v, s, from, to);
    proof {
        assert(v@ =~= s@.subrange(from as int, to as int));
    }
    string_from(v.as_slice())
}

/// Number of bytes that `c` takes in UTF-8.
pub open spec fn utf8_width(c: char) -> nat {
    let u = c as u32;
    if u < 0x80 {
        1
    } else if u < 0x800 {
        2
    } else if u < 0x10000 {
        3
    } else {
        4
    }
}

/// Number of bytes that `s` takes in UTF-8.
pub open spec fn utf8_len(s: Seq<char>) -> nat
    decreases s.len(),
{
    if s.len() == 0 {
        0
    } else {
        utf8_len(s.drop_last()) + utf8_width(s.last())
    }
}

pub proof fn lemma_utf8_len_at_least(s: Seq<char>)
    ensures
        utf8_len(s) >= s.len(),
    decreases s.len(),
{
    if s.len() > 0 {
        lemma_utf8_len_at_least(s.drop_last());
    }
}

/// The UTF-8 length of `s[from..to]` when it is below 8, otherwise 8.
pub fn utf8_len_capped(s: &[char], from: usize, to: usize) -> (r: usize)
    requires
        from <= to <= s@.len(),
    ensures
        r == if utf8_len(s@.subrange(from as int, to as int)) < 8 {
            utf8_len(s@.subrange(from as int, to as int))
        } else {
            8
        },
{
    if to - from >= 8 {
        proof {
            lemma_utf8_len_at_least(s@.subrange(from as int, to as int));
        }
        return 8;
    }
    let mut i = from;
    let mut n: usize = 0;
    while i < to
        invariant
            from <= i <= to <= s@.len(),
            to - from < 8,
            n == utf8_len(s@.subrange(from as int, i as int)),
            n <= 4 * (i - from),
        decreases to - i,
    {
        let u = s[i] as u32;
        let w: usize = if u < 0x80 {
            1
        } else if u < 0x800 {
            2
        } else if u < 0x10000 {
            3
        } else {
            4
        };
        proof {
            assert(s@.subrange(from as int, i + 1).drop_last() =~= s@.subrange(from as int, i as int));
        }
        n = n + w;
        i = i + 1;
    }
    if n < 8 {
        n
    } else {
        8
    }
}

} // verus!
