//! Character-level helpers shared by the wire, API and service layers.
//!
//! Every function here works on explicit index ranges of a `Vec<char>` and is
//! specified against a plain sequence definition, so the callers can state
//! their own contracts in terms of `Seq<char>`.
use vstd::prelude::*;
use vstd::string::StringExecFns;

verus! {

/// Unicode `White_Space`, the property `char::is_whitespace` tests.
pub open spec fn is_ws(c: char) -> bool {
    let u = c as u32;
    ||| (0x09 <= u && u <= 0x0d)
    ||| u == 0x20
    ||| u == 0x85
    ||| u == 0xa0
    ||| u == 0x1680
    ||| (0x2000 <= u && u <= 0x200a)
    ||| u == 0x2028
    ||| u == 0x2029
    ||| u == 0x202f
    ||| u == 0x205f
    ||| u == 0x3000
}

pub fn is_whitespace(c: char) -> (r: bool)
    ensures
        r == is_ws(c),
{
    let u = c as u32;
    (0x09 <= u && u <= 0x0d) || u == 0x20 || u == 0x85 || u == 0xa0 || u == 0x1680 || (0x2000
        <= u && u <= 0x200a) || u == 0x2028 || u == 0x2029 || u == 0x202f || u == 0x205f || u
        == 0x3000
}

/// `char::to_ascii_lowercase`.
pub open spec fn lower(c: char) -> char {
    if 'A' <= c && c <= 'Z' {
        ((c as u32) + 32) as char
    } else {
        c
    }
}

pub fn to_lower(c: char) -> (r: char)
    ensures
        r == lower(c),
{
    if 'A' <= c && c <= 'Z' {
        let u = (c as u32) + 32;
        assert(0x61 <= u <= 0x7a);
        char_from_ascii(u)
    } else {
        c
    }
}

/// Converts a code point below 0x80 to its `char`.
fn char_from_ascii(u: u32) -> (r: char)
    requires
        u < 0x80,
    ensures
        r == u as char,
        r as u32 == u,
{
    let b = u as u8;
    let r = b as char;
    assert(r as u32 == u);
    r
}

/// `str::trim_start`: strips leading Unicode white space.
pub open spec fn trim_start(s: Seq<char>) -> Seq<char>
    decreases s.len(),
{
    if s.len() > 0 && is_ws(s[0]) {
        trim_start(s.drop_first())
    } else {
        s
    }
}

/// `str::trim_end`: strips trailing Unicode white space.
pub open spec fn trim_end(s: Seq<char>) -> Seq<char>
    decreases s.len(),
{
    if s.len() > 0 && is_ws(s.last()) {
        trim_end(s.drop_last())
    } else {
        s
    }
}

/// `str::trim`.
pub open spec fn trim(s: Seq<char>) -> Seq<char> {
    trim_end(trim_start(s))
}

/// Narrows `lo..hi` of `v` to its trimmed part.
pub fn trim_range(v: &Vec<char>, lo: usize, hi: usize) -> (r: (usize, usize))
    requires
        lo <= hi <= v@.len(),
    ensures
        lo <= r.0 <= r.1 <= hi,
        v@.subrange(r.0 as int, r.1 as int) == trim(v@.subrange(lo as int, hi as int)),
{
    let mut a = lo;
    while a < hi && is_whitespace(v[a])
        invariant
            lo <= a <= hi <= v@.len(),
            trim_start(v@.subrange(lo as int, hi as int)) == trim_start(
                v@.subrange(a as int, hi as int),
            ),
        decreases hi - a,
    {
        assert(v@.subrange(a as int, hi as int).drop_first() =~= v@.subrange(
            a + 1,
            hi as int,
        ));
        a = a + 1;
    }
    let mut b = hi;
    while b > a && is_whitespace(v[b - 1])
        invariant
            lo <= a <= b <= hi <= v@.len(),
            trim_end(v@.subrange(a as int, hi as int)) == trim_end(
                v@.subrange(a as int, b as int),
            ),
        decreases b - a,
    {
        assert(v@.subrange(a as int, b as int).drop_last() =~= v@.subrange(
            a as int,
            b - 1,
        ));
        b = b - 1;
    }
    (a, b)
}

/// `eq_ignore_ascii_case` on character sequences.
pub open spec fn eq_ic(a: Seq<char>, b: Seq<char>) -> bool {
    &&& a.len() == b.len()
    &&& forall|i: int| 0 <= i < a.len() ==> lower(#[trigger] a[i]) == lower(b[i])
}

/// Compares `v[lo..hi]` with `name`, ignoring ASCII case.
pub fn range_eq_ic(v: &Vec<char>, lo: usize, hi: usize, name: &Vec<char>) -> (r: bool)
    requires
        lo <= hi <= v@.len(),
    ensures
        r == eq_ic(v@.subrange(lo as int, hi as int), name@),
{
    if hi - lo != name.len() {
        return false;
    }
    let mut i: usize = 0;
    while i < name.len()
        invariant
            hi - lo == name@.len(),
            lo <= hi <= v@.len(),
            0 <= i <= name@.len(),
            forall|j: int| 0 <= j < i ==> lower(v@[lo + j]) == lower(name@[j]),
        decreases name@.len() - i,
    {
        if to_lower(v[lo + i]) != to_lower(name[i]) {
            assert(lower(v@.subrange(lo as int, hi as int)[i as int]) != lower(name@[i as int]));
            return false;
        }
        i = i + 1;
    }
    assert forall|j: int| 0 <= j < name@.len() implies lower(
        #[trigger] v@.subrange(lo as int, hi as int)[j],
    ) == lower(name@[j]) by {
        assert(v@.subrange(lo as int, hi as int)[j] == v@[lo + j]);
    }
    true
}

/// The first index at or after `i` where `c` occurs.
pub open spec fn find_char_from(s: Seq<char>, c: char, i: int) -> Option<int>
    decreases s.len() - i,
{
    if i < 0 || i >= s.len() {
        None
    } else if s[i] == c {
        Some(i)
    } else {
        find_char_from(s, c, i + 1)
    }
}

pub open spec fn find_char(s: Seq<char>, c: char) -> Option<int> {
    find_char_from(s, c, 0)
}

/// Searches `v[lo..hi]` for `c`, answering an absolute index.
pub fn find_char_in(v: &Vec<char>, lo: usize, hi: usize, c: char) -> (r: Option<usize>)
    requires
        lo <= hi <= v@.len(),
    ensures
        r matches Some(k) ==> lo <= k < hi && find_char(v@.subrange(lo as int, hi as int), c)
            == Some(k - lo),
        r is None ==> find_char(v@.subrange(lo as int, hi as int), c) is None,
{
    let ghost s = v@.subrange(lo as int, hi as int);
    let mut i = lo;
    while i < hi
        invariant
            lo <= i <= hi <= v@.len(),
            s == v@.subrange(lo as int, hi as int),
            find_char(s, c) == find_char_from(s, c, i - lo),
        decreases hi - i,
    {
        if v[i] == c {
            return Some(i);
        }
        i = i + 1;
    }
    None
}

/// The value of one digit in `radix` (2..=36), as `char::to_digit` gives it.
pub open spec fn digit_of(c: char, radix: nat) -> Option<nat> {
    let u = c as u32;
    let d: int = if '0' <= c && c <= '9' {
        u - 0x30
    } else if 'a' <= c && c <= 'z' {
        u - 0x61 + 10
    } else if 'A' <= c && c <= 'Z' {
        u - 0x41 + 10
    } else {
        99
    };
    if d < radix {
        Some(d as nat)
    } else {
        None
    }
}

/// The number a string of digits denotes, when every character is a digit.
pub open spec fn digits_value(s: Seq<char>, radix: nat) -> Option<nat>
    decreases s.len(),
{
    if s.len() == 0 {
        Some(0)
    } else {
        match digits_value(s.drop_last(), radix) {
            Some(v) => match digit_of(s.last(), radix) {
                Some(d) => Some(v * radix + d),
                None => None,
            },
            None => None,
        }
    }
}

/// `from_str_radix` for an unsigned type whose largest value is `max`: an
/// optional `+`, then at least one digit, and no overflow.
pub open spec fn parse_uint(s: Seq<char>, radix: nat, max: nat) -> Option<nat> {
    if s.len() == 0 {
        None
    } else {
        let digits = if s[0] == '+' {
            s.drop_first()
        } else {
            s
        };
        if digits.len() == 0 {
            None
        } else {
            match digits_value(digits, radix) {
                Some(v) => if v <= max {
                    Some(v)
                } else {
                    None
                },
                None => None,
            }
        }
    }
}

fn digit_value(c: char, radix: u32) -> (r: Option<u32>)
    requires
        2 <= radix <= 36,
    ensures
        match digit_of(c, radix as nat) {
            Some(d) => r == Some(d as u32),
            None => r is None,
        },
{
    let u = c as u32;
    let d: u32 = if '0' <= c && c <= '9' {
        u - 0x30
    } else if 'a' <= c && c <= 'z' {
        u - 0x61 + 10
    } else if 'A' <= c && c <= 'Z' {
        u - 0x41 + 10
    } else {
        99
    };
    if d < radix {
        Some(d)
    } else {
        None
    }
}

proof fn lemma_digits_monotone(s: Seq<char>, radix: nat, i: int)
    requires
        0 <= i <= s.len(),
        radix >= 1,
        digits_value(s, radix) is Some,
    ensures
        digits_value(s.take(i), radix) is Some,
        digits_value(s.take(i), radix)->0 <= digits_value(s, radix)->0,
    decreases s.len() - i,
{
    if i < s.len() {
        assert(s.take(i + 1).drop_last() =~= s.take(i));
        lemma_digits_monotone(s, radix, i + 1);
        let v = digits_value(s.take(i), radix)->0;
        let d = digit_of(s.take(i + 1).last(), radix)->0;
        assert(v * radix + d >= v) by (nonlinear_arith)
            requires
                radix >= 1,
        ;
    } else {
        assert(s.take(i) =~= s);
    }
}

/// Parses `v[lo..hi]` as an unsigned integer in `radix`, rejecting values
/// above `max`.
pub fn parse_uint_range(v: &Vec<char>, lo: usize, hi: usize, radix: u32, max: u64) -> (r: Option<
    u64,
>)
    requires
        lo <= hi <= v@.len(),
        2 <= radix <= 36,
    ensures
        match parse_uint(v@.subrange(lo as int, hi as int), radix as nat, max as nat) {
            Some(n) => r == Some(n as u64),
            None => r is None,
        },
{
    let ghost s = v@.subrange(lo as int, hi as int);
    if lo == hi {
        return None;
    }
    let start = if v[lo] == '+' {
        lo + 1
    } else {
        lo
    };
    let ghost digits = v@.subrange(start as int, hi as int);
    assert(digits == (if s[0] == '+' {
        s.drop_first()
    } else {
        s
    }));
    if start == hi {
        return None;
    }
    let mut acc: u64 = 0;
    let mut i = start;
    assert(digits.take(0) =~= Seq::<char>::empty());
    while i < hi
        invariant
            start <= i <= hi <= v@.len(),
            lo <= start,
            2 <= radix <= 36,
            s == v@.subrange(lo as int, hi as int),
            s.len() > 0,
            digits.len() > 0,
            digits == v@.subrange(start as int, hi as int),
            digits == (if s[0] == '+' {
                s.drop_first()
            } else {
                s
            }),
            digits_value(digits.take(i - start), radix as nat) == Some(acc as nat),
            acc <= max,
        decreases hi - i,
    {
        assert(digits.take(i - start + 1).drop_last() =~= digits.take(i - start));
        assert(digits.take(i - start + 1).last() == v@[i as int]);
        let d = match digit_value(v[i], radix) {
            Some(d) => d,
            None => {
                proof {
                    assert(digits_value(digits.take(i - start + 1), radix as nat) is None);
                    if digits_value(digits, radix as nat) is Some {
                        lemma_digits_monotone(digits, radix as nat, i - start + 1);
                    }
                }
                return None;
            },
        };
        let next = match acc.checked_mul(radix as u64) {
            Some(m) => m.checked_add(d as u64),
            None => None,
        };
        match next {
            Some(n) if n <= max => {
                acc = n;
            },
            _ => {
                proof {
                    assert(digits_value(digits.take(i - start + 1), radix as nat) == Some(
                        (acc * radix + d) as nat,
                    ));
                    if digits_value(digits, radix as nat) is Some {
                        lemma_digits_monotone(digits, radix as nat, i - start + 1);
                    }
                }
                return None;
            },
        }
        i = i + 1;
    }
    assert(digits.take(hi - start) =~= digits);
    Some(acc)
}

/// The decimal rendering of a natural number, as `Display` prints it.
pub open spec fn decimal(n: nat) -> Seq<char>
    decreases n,
{
    if n < 10 {
        seq![(n + 0x30) as char]
    } else {
        decimal(n / 10).push(((n % 10) + 0x30) as char)
    }
}

/// Appends the decimal rendering of `n`.
pub fn push_decimal(out: &mut String, n: u64)
    ensures
        final(out)@ == old(out)@ + decimal(n as nat),
    decreases n,
{
    if n < 10 {
        let c = char_from_ascii((n as u32) + 0x30);
        push_char(out, c);
        assert(old(out)@.push(c) =~= old(out)@ + decimal(n as nat));
    } else {
        push_decimal(out, n / 10);
        let c = char_from_ascii(((n % 10) as u32) + 0x30);
        push_char(out, c);
        assert(old(out)@ + decimal((n / 10) as nat) + seq![c] =~= old(out)@ + decimal(n as nat));
    }
}

/// Appends one character to a `String`.
#[verifier::external_body]
pub fn push_char(s: &mut String, c: char)
    ensures
        final(s)@ == old(s)@.push(c),
{
    s.push(c);
}

/// Appends a string slice.
pub fn push_str(out: &mut String, s: &str)
    ensures
        final(out)@ == old(out)@ + s@,
{
    out.append(s);
}

/// Appends `v[lo..hi]`.
pub fn push_range(out: &mut String, v: &Vec<char>, lo: usize, hi: usize)
    requires
        lo <= hi <= v@.len(),
    ensures
        final(out)@ == old(out)@ + v@.subrange(lo as int, hi as int),
{
    let mut i = lo;
    while i < hi
        invariant
            lo <= i <= hi <= v@.len(),
            out@ == old(out)@ + v@.subrange(lo as int, i as int),
        decreases hi - i,
    {
        push_char(out, v[i]);
        assert(old(out)@ + v@.subrange(lo as int, i + 1) =~= old(out)@ + v@.subrange(
            lo as int,
            i as int,
        ) + seq![v@[i as int]]);
        i = i + 1;
    }
}

/// A new `String` holding `v[lo..hi]`.
pub fn string_of_range(v: &Vec<char>, lo: usize, hi: usize) -> (r: String)
    requires
        lo <= hi <= v@.len(),
    ensures
        r@ == v@.subrange(lo as int, hi as int),
{
    let mut r = String::new();
    push_range(&mut r, v, lo, hi);
    assert(Seq::<char>::empty() + v@.subrange(lo as int, hi as int) =~= v@.subrange(
        lo as int,
        hi as int,
    ));
    r
}

/// A new `String` with the same characters as `s`.
pub fn string_of(s: &str) -> (r: String)
    ensures
        r@ == s@,
{
    String::from_str(s)
}

/// Copies the characters of `s` into a vector.
pub fn chars_of(s: &str) -> (r: Vec<char>)
    ensures
        r@ == s@,
{
    let mut r: Vec<char> = Vec::new();
    for c in it: s.chars()
        invariant
            r@ == it.seq().take(it.index() as int),
            it.seq() == s@,
    {
        r.push(c);
    }
    r
}

/// Whether `s` begins with `prefix`.
pub open spec fn starts_with(s: Seq<char>, prefix: Seq<char>) -> bool {
    s.len() >= prefix.len() && s.take(prefix.len() as int) == prefix
}

/// Whether `s` ends with `suffix`.
pub open spec fn ends_with(s: Seq<char>, suffix: Seq<char>) -> bool {
    s.len() >= suffix.len() && s.skip(s.len() - suffix.len()) == suffix
}

/// Whether `v[lo..hi]` begins with `prefix`.
pub fn range_starts_with(v: &Vec<char>, lo: usize, hi: usize, prefix: &Vec<char>) -> (r: bool)
    requires
        lo <= hi <= v@.len(),
    ensures
        r == starts_with(v@.subrange(lo as int, hi as int), prefix@),
{
    if hi - lo < prefix.len() {
        return false;
    }
    let mut i: usize = 0;
    while i < prefix.len()
        invariant
            lo <= hi <= v@.len(),
            hi - lo >= prefix@.len(),
            0 <= i <= prefix@.len(),
            forall|j: int| 0 <= j < i ==> v@[lo + j] == prefix@[j],
        decreases prefix@.len() - i,
    {
        if v[lo + i] != prefix[i] {
            assert(v@.subrange(lo as int, hi as int).take(prefix@.len() as int)[i as int]
                != prefix@[i as int]);
            return false;
        }
        i = i + 1;
    }
    assert(v@.subrange(lo as int, hi as int).take(prefix@.len() as int) =~= prefix@);
    true
}

/// Whether `v[lo..hi]` ends with `suffix`.
pub fn range_ends_with(v: &Vec<char>, lo: usize, hi: usize, suffix: &Vec<char>) -> (r: bool)
    requires
        lo <= hi <= v@.len(),
    ensures
        r == ends_with(v@.subrange(lo as int, hi as int), suffix@),
{
    if hi - lo < suffix.len() {
        return false;
    }
    let base = hi - suffix.len();
    let mut i: usize = 0;
    while i < suffix.len()
        invariant
            lo <= base <= hi <= v@.len(),
            base + suffix@.len() == hi,
            0 <= i <= suffix@.len(),
            forall|j: int| 0 <= j < i ==> v@[base + j] == suffix@[j],
        decreases suffix@.len() - i,
    {
        if v[base + i] != suffix[i] {
            let ghost s = v@.subrange(lo as int, hi as int);
            assert(s.skip(s.len() - suffix@.len())[i as int] != suffix@[i as int]);
            return false;
        }
        i = i + 1;
    }
    let ghost s = v@.subrange(lo as int, hi as int);
    assert(s.skip(s.len() - suffix@.len()) =~= suffix@);
    true
}

proof fn lemma_trim_start_empty(s: Seq<char>)
    ensures
        trim_start(s).len() == 0 <==> (forall|i: int| 0 <= i < s.len() ==> is_ws(#[trigger] s[i])),
        trim_start(s).len() > 0 ==> !is_ws(trim_start(s)[0]),
    decreases s.len(),
{
    if s.len() > 0 && is_ws(s[0]) {
        let d = s.drop_first();
        lemma_trim_start_empty(d);
        if forall|i: int| 0 <= i < d.len() ==> is_ws(#[trigger] d[i]) {
            assert forall|i: int| 0 <= i < s.len() implies is_ws(#[trigger] s[i]) by {
                if i > 0 {
                    assert(s[i] == d[i - 1]);
                }
            }
        } else {
            let k = choose|k: int| 0 <= k < d.len() && !is_ws(#[trigger] d[k]);
            assert(s[k + 1] == d[k]);
        }
    } else if s.len() > 0 {
        assert(!is_ws(s[0]));
    }
}

proof fn lemma_trim_end_keeps_a_non_space_head(t: Seq<char>)
    requires
        t.len() > 0,
        !is_ws(t[0]),
    ensures
        trim_end(t).len() > 0,
    decreases t.len(),
{
    if is_ws(t.last()) {
        assert(t.len() > 1);
        lemma_trim_end_keeps_a_non_space_head(t.drop_last());
    }
}

/// Text trims to nothing exactly when every character of it is white space.
pub proof fn lemma_trim_empty_iff_all_ws(s: Seq<char>)
    ensures
        trim(s).len() == 0 <==> (forall|i: int| 0 <= i < s.len() ==> is_ws(#[trigger] s[i])),
{
    lemma_trim_start_empty(s);
    let t = trim_start(s);
    if t.len() > 0 {
        lemma_trim_end_keeps_a_non_space_head(t);
    } else {
        assert(trim_end(t) == t);
    }
}

} // verus!

verus! {

/// UTF-8 spends at most four bytes on a character.
pub proof fn lemma_utf8_len_bound(chars: Seq<char>)
    ensures
        vstd::utf8::encode_utf8(chars).len() <= 4 * chars.len(),
    decreases chars.len(),
{
    if chars.len() > 0 {
        lemma_utf8_len_bound(chars.drop_first());
    }
}

} // verus!

verus! {

/// Where the line that starts at `i` stops: the first `'\n'` at or after `i`,
/// or the end of `s`.
pub open spec fn line_break(s: Seq<char>, i: int) -> int {
    match find_char_from(s, '\n', i) {
        Some(k) => k,
        None => s.len() as int,
    }
}

/// The end of the line that starts at `i` once its terminator is removed the
/// way `str::lines` removes it: the `'\n'`, and a `'\r'` right before it.
pub open spec fn line_end(s: Seq<char>, i: int) -> int {
    let e = line_break(s, i);
    if e < s.len() && e > i && s[e - 1] == '\r' {
        e - 1
    } else {
        e
    }
}

/// The line that starts at `i`, as `str::lines` yields it.
pub open spec fn line_at(s: Seq<char>, i: int) -> Seq<char> {
    s.subrange(i, line_end(s, i))
}

/// Where the line after the one starting at `i` starts.
pub open spec fn next_line(s: Seq<char>, i: int) -> int {
    line_break(s, i) + 1
}

pub proof fn lemma_find_char_from(s: Seq<char>, c: char, i: int)
    requires
        0 <= i,
    ensures
        find_char_from(s, c, i) matches Some(k) ==> i <= k < s.len() && s[k] == c,
        find_char_from(s, c, i) is None ==> forall|j: int| i <= j < s.len() ==> s[j] != c,
    decreases s.len() - i,
{
    if i < s.len() && s[i] != c {
        lemma_find_char_from(s, c, i + 1);
    }
}

pub proof fn lemma_line_bounds(s: Seq<char>, i: int)
    requires
        0 <= i <= s.len(),
    ensures
        i <= line_end(s, i) <= line_break(s, i) <= s.len(),
        next_line(s, i) > i,
{
    lemma_find_char_from(s, '\n', i);
}

/// Finds the first occurrence of `c` at or after `i`.
pub fn find_char_after(v: &Vec<char>, i: usize, c: char) -> (r: Option<usize>)
    ensures
        r matches Some(k) ==> find_char_from(v@, c, i as int) == Some(k as int),
        r is None ==> find_char_from(v@, c, i as int) is None,
{
    let mut j = i;
    while j < v.len()
        invariant
            i <= j,
            find_char_from(v@, c, i as int) == find_char_from(v@, c, j as int),
        decreases v@.len() - j,
    {
        if v[j] == c {
            return Some(j);
        }
        j = j + 1;
    }
    None
}

/// The bounds of the line that starts at `i`: its end without terminator,
/// and the index of its `'\n'` (the length of `v` when it has none).
pub fn line_bounds(v: &Vec<char>, i: usize) -> (r: (usize, usize))
    requires
        i <= v@.len(),
    ensures
        r.0 == line_end(v@, i as int),
        r.1 == line_break(v@, i as int),
        i <= r.0 <= r.1 <= v@.len(),
{
    proof {
        lemma_line_bounds(v@, i as int);
    }
    let brk = match find_char_after(v, i, '\n') {
        Some(k) => k,
        None => v.len(),
    };
    let end = if brk < v.len() && brk > i && v[brk - 1] == '\r' {
        brk - 1
    } else {
        brk
    };
    (end, brk)
}

/// The first index in `i..e` that is not white space, or `e`.
pub open spec fn skip_ws(s: Seq<char>, i: int, e: int) -> int
    decreases e - i,
{
    if i < e && is_ws(s[i]) {
        skip_ws(s, i + 1, e)
    } else {
        i
    }
}

/// The first index in `i..e` that is white space, or `e`.
pub open spec fn token_end(s: Seq<char>, i: int, e: int) -> int
    decreases e - i,
{
    if i < e && !is_ws(s[i]) {
        token_end(s, i + 1, e)
    } else {
        i
    }
}

pub proof fn lemma_skip_ws(s: Seq<char>, i: int, e: int)
    requires
        i <= e,
    ensures
        i <= skip_ws(s, i, e) <= e,
        skip_ws(s, i, e) < e ==> !is_ws(s[skip_ws(s, i, e)]),
    decreases e - i,
{
    if i < e && is_ws(s[i]) {
        lemma_skip_ws(s, i + 1, e);
    }
}

pub proof fn lemma_token_end(s: Seq<char>, i: int, e: int)
    requires
        i <= e,
    ensures
        i <= token_end(s, i, e) <= e,
        i < e && !is_ws(s[i]) ==> token_end(s, i, e) > i,
    decreases e - i,
{
    if i < e && !is_ws(s[i]) {
        lemma_token_end(s, i + 1, e);
    }
}

/// The `n`-th (from zero) white-space separated token of `s[i..e]`, as
/// `split_whitespace().nth(n)` yields it, given as its bounds.
pub open spec fn nth_token(s: Seq<char>, i: int, e: int, n: nat) -> Option<(int, int)>
    decreases e - i,
{
    if i > e {
        None
    } else {
        let a = skip_ws(s, i, e);
        if a >= e {
            None
        } else {
            let b = token_end(s, a, e);
            if n == 0 {
                Some((a, b))
            } else {
                proof {
                    lemma_skip_ws(s, i, e);
                    lemma_token_end(s, a, e);
                }
                nth_token(s, b, e, (n - 1) as nat)
            }
        }
    }
}

pub fn skip_ws_exec(v: &Vec<char>, i: usize, e: usize) -> (r: usize)
    requires
        i <= e <= v@.len(),
    ensures
        r == skip_ws(v@, i as int, e as int),
{
    let mut j = i;
    while j < e && is_whitespace(v[j])
        invariant
            i <= j <= e <= v@.len(),
            skip_ws(v@, i as int, e as int) == skip_ws(v@, j as int, e as int),
        decreases e - j,
    {
        j = j + 1;
    }
    j
}

pub fn token_end_exec(v: &Vec<char>, i: usize, e: usize) -> (r: usize)
    requires
        i <= e <= v@.len(),
    ensures
        r == token_end(v@, i as int, e as int),
{
    let mut j = i;
    while j < e && !is_whitespace(v[j])
        invariant
            i <= j <= e <= v@.len(),
            token_end(v@, i as int, e as int) == token_end(v@, j as int, e as int),
        decreases e - j,
    {
        j = j + 1;
    }
    j
}

/// Finds the `n`-th white-space separated token of `v[i..e]`.
pub fn nth_token_exec(v: &Vec<char>, i: usize, e: usize, n: usize) -> (r: Option<(usize, usize)>)
    requires
        i <= e <= v@.len(),
    ensures
        r matches Some((a, b)) ==> i <= a <= b <= e && nth_token(v@, i as int, e as int, n as nat)
            == Some((a as int, b as int)),
        r is None ==> nth_token(v@, i as int, e as int, n as nat) is None,
{
    let mut start = i;
    let mut k = n;
    loop
        invariant
            i <= start <= e <= v@.len(),
            k <= n,
            nth_token(v@, i as int, e as int, n as nat) == nth_token(
                v@,
                start as int,
                e as int,
                k as nat,
            ),
        decreases e - start,
    {
        proof {
            lemma_skip_ws(v@, start as int, e as int);
        }
        let a = skip_ws_exec(v, start, e);
        if a >= e {
            return None;
        }
        proof {
            lemma_token_end(v@, a as int, e as int);
        }
        let b = token_end_exec(v, a, e);
        if k == 0 {
            return Some((a, b));
        }
        start = b;
        k = k - 1;
    }
}

} // verus!

verus! {

/// The `Display` text of the `Utf8Error` that `std::str::from_utf8` reports
/// for `bytes`: it names the first invalid sequence by its position and
/// length, both functions of the bytes alone.
pub uninterp spec fn utf8_error_text(bytes: Seq<u8>) -> Seq<char>;

/// Decodes bytes as UTF-8 with `std::str::from_utf8`, which accepts exactly
/// the well-formed encodings and then yields the characters they encode. On
/// failure the answer is the `Display` text of the `Utf8Error`, named
/// `utf8_error_text` and not spelled out here.
#[verifier::external_body]
pub fn str_from_utf8(bytes: &[u8]) -> (r: Result<&str, String>)
    ensures
        r is Ok <==> vstd::utf8::valid_utf8(bytes@),
        r matches Ok(s) ==> s@ == vstd::utf8::decode_utf8(bytes@),
        r matches Err(m) ==> m@ == utf8_error_text(bytes@),
{
    match std::str::from_utf8(bytes) {
        Ok(s) => Ok(s),
        Err(error) => Err(error.to_string()),
    }
}

/// A copy of `v[lo..hi]`.
pub fn copy_range(v: &Vec<char>, lo: usize, hi: usize) -> (r: Vec<char>)
    requires
        lo <= hi <= v@.len(),
    ensures
        r@ == v@.subrange(lo as int, hi as int),
{
    let mut r: Vec<char> = Vec::new();
    let mut i = lo;
    while i < hi
        invariant
            lo <= i <= hi <= v@.len(),
            r@ == v@.subrange(lo as int, i as int),
        decreases hi - i,
    {
        r.push(v[i]);
        assert(r@ =~= v@.subrange(lo as int, i + 1));
        i = i + 1;
    }
    r
}

/// Whether the ASCII-lowercased `s` begins with `prefix`.
pub open spec fn lower_starts_with(s: Seq<char>, prefix: Seq<char>) -> bool {
    &&& s.len() >= prefix.len()
    &&& forall|j: int| 0 <= j < prefix.len() ==> lower(#[trigger] s[j]) == prefix[j]
}

pub fn range_lower_starts_with(v: &Vec<char>, lo: usize, hi: usize, prefix: &Vec<char>) -> (r: bool)
    requires
        lo <= hi <= v@.len(),
    ensures
        r == lower_starts_with(v@.subrange(lo as int, hi as int), prefix@),
{
    if hi - lo < prefix.len() {
        return false;
    }
    let mut i: usize = 0;
    while i < prefix.len()
        invariant
            lo <= hi <= v@.len(),
            hi - lo >= prefix@.len(),
            0 <= i <= prefix@.len(),
            forall|j: int| 0 <= j < i ==> lower(v@[lo + j]) == prefix@[j],
        decreases prefix@.len() - i,
    {
        if to_lower(v[lo + i]) != prefix[i] {
            assert(lower(v@.subrange(lo as int, hi as int)[i as int]) != prefix@[i as int]);
            return false;
        }
        i = i + 1;
    }
    assert forall|j: int| 0 <= j < prefix@.len() implies lower(
        #[trigger] v@.subrange(lo as int, hi as int)[j],
    ) == prefix@[j] by {
        assert(v@.subrange(lo as int, hi as int)[j] == v@[lo + j]);
    }
    true
}

} // verus!
