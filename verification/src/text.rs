//! Character-level helpers on `&str` and `String`, specified over `Seq<char>`.

use vstd::prelude::*;

verus! {

broadcast use vstd::string::group_string_axioms;

/// The characters of `s`, one per element.
pub fn chars_of(s: &str) -> (v: Vec<char>)
    ensures
        v@ == s@,
{
    let mut v: Vec<char> = Vec::new();
    for c in it: s.chars()
        invariant
            v@ == it.seq().take(it.index() as int),
    {
        v.push(c);
    }
    assert(v@ =~= s@);
    v
}

/// `String::push`: appends the given character to the end of the string.
#[verifier::external_body]
pub(crate) fn push_char(s: &mut String, c: char)
    ensures
        final(s)@ == old(s)@.push(c),
{
    s.push(c);
}

/// A string holding exactly the characters of `cs[from..to]`.
pub fn string_from_chars(cs: &[char], from: usize, to: usize) -> (s: String)
    requires
        from <= to <= cs@.len(),
    ensures
        s@ == cs@.subrange(from as int, to as int),
{
    let mut s = String::new();
    let mut i = from;
    while i < to
        invariant
            from <= i <= to <= cs@.len(),
            s@ == cs@.subrange(from as int, i as int),
        decreases to - i,
    {
        push_char(&mut s, cs[i]);
        assert(cs@.subrange(from as int, i + 1) =~= cs@.subrange(from as int, i as int).push(cs@[i as int]));
        i = i + 1;
    }
    s
}

/// Equality of two strings, character by character.
pub fn str_eq(a: &str, b: &str) -> (r: bool)
    ensures
        r == (a@ == b@),
{
    let x = chars_of(a);
    let y = chars_of(b);
    if x.len() != y.len() {
        return false;
    }
    let mut i: usize = 0;
    while i < x.len()
        invariant
            x@ == a@,
            y@ == b@,
            x@.len() == y@.len(),
            i <= x@.len(),
            forall|j: int| 0 <= j < i ==> x@[j] == y@[j],
        decreases x@.len() - i,
    {
        if x[i] != y[i] {
            return false;
        }
        i = i + 1;
    }
    assert(x@ =~= y@);
    true
}

/// True for characters of the ASCII range (code point at most 127).
pub open spec fn is_ascii_char(c: char) -> bool {
    (c as u32) <= 127
}

/// True when every character of `s` is ASCII.
pub open spec fn all_ascii(s: Seq<char>) -> bool {
    forall|i: int| 0 <= i < s.len() ==> is_ascii_char(#[trigger] s[i])
}

/// ASCII upper-case letters map to lower case; every other character stays.
pub open spec fn lower_char(c: char) -> char {
    if 'A' <= c && c <= 'Z' {
        ((c as u32) + 32) as char
    } else {
        c
    }
}

/// `s` with every ASCII letter in lower case (as `str::to_ascii_lowercase`).
pub open spec fn ascii_lower(s: Seq<char>) -> Seq<char> {
    s.map_values(|c: char| lower_char(c))
}

/// Executable `lower_char`.
pub fn lower_char_exec(c: char) -> (r: char)
    ensures
        r == lower_char(c),
{
    if 'A' <= c && c <= 'Z' {
        let u: u32 = (c as u32) + 32;
        char_from_ascii(u)
    } else {
        c
    }
}

/// The character with an ASCII code point.
fn char_from_ascii(u: u32) -> (c: char)
    requires
        u <= 127,
    ensures
        c == u as char,
{
    (u as u8) as char
}

/// Lower-cases the ASCII letters of `s`.
pub fn to_ascii_lowercase(s: &str) -> (r: String)
    ensures
        r@ == ascii_lower(s@),
{
    let cs = chars_of(s);
    let mut r = String::new();
    let mut i: usize = 0;
    while i < cs.len()
        invariant
            cs@ == s@,
            i <= cs@.len(),
            r@ == ascii_lower(s@).take(i as int),
        decreases cs@.len() - i,
    {
        let l = lower_char_exec(cs[i]);
        push_char(&mut r, l);
        assert(ascii_lower(s@).take(i + 1) =~= ascii_lower(s@).take(i as int).push(l));
        i = i + 1;
    }
    assert(ascii_lower(s@).take(cs@.len() as int) =~= ascii_lower(s@));
    r
}


/// `needle` occurs in `hay` starting at index `i`.
pub open spec fn occurs_at(hay: Seq<char>, needle: Seq<char>, i: int) -> bool {
    0 <= i && i + needle.len() <= hay.len() && hay.subrange(i, i + needle.len()) == needle
}

/// `needle` occurs somewhere in `hay` (as `str::contains` with a string pattern).
pub open spec fn contains(hay: Seq<char>, needle: Seq<char>) -> bool {
    exists|i: int| occurs_at(hay, needle, i)
}

/// Searches `needle` in `hay`.
pub fn contains_exec(hay: &[char], needle: &str) -> (r: bool)
    ensures
        r == contains(hay@, needle@),
{
    let n = chars_of(needle);
    if n.len() > hay.len() {
        assert forall|i: int| !occurs_at(hay@, needle@, i) by {}
        return false;
    }
    let mut i: usize = 0;
    assert(hay@.len() == hay.len());
    while n.len() <= hay.len() - i
        invariant
            n@ == needle@,
            i <= hay@.len(),
            forall|k: int| 0 <= k < i ==> !occurs_at(hay@, needle@, k),
        decreases hay@.len() - i,
    {
        let mut j: usize = 0;
        let mut same = true;
        while j < n.len()
            invariant
                n@ == needle@,
                i + n@.len() <= hay@.len(),
                hay@.len() <= usize::MAX,
                j <= n@.len(),
                same == (forall|k: int| 0 <= k < j ==> hay@[i + k] == n@[k]),
            decreases n@.len() - j,
        {
            if hay[i + j] != n[j] {
                same = false;
            }
            j = j + 1;
        }
        if same {
            assert(hay@.subrange(i as int, i + n@.len()) =~= needle@);
            assert(occurs_at(hay@, needle@, i as int));
            return true;
        }
        assert(!occurs_at(hay@, needle@, i as int)) by {
            if occurs_at(hay@, needle@, i as int) {
                let k = choose|k: int| 0 <= k < n@.len() && hay@[i + k] != n@[k];
                assert(hay@.subrange(i as int, i + n@.len())[k] == hay@[i + k]);
            }
        }
        i = i + 1;
    }
    assert forall|k: int| !occurs_at(hay@, needle@, k) by {}
    false
}

/// White space in the sense of `char::is_whitespace` (the Unicode `White_Space` property).
pub open spec fn is_white(c: char) -> bool {
    ||| '\t' <= c && c <= '\r'
    ||| c == ' '
    ||| c == '\u{85}'
    ||| c == '\u{A0}'
    ||| c == '\u{1680}'
    ||| '\u{2000}' <= c && c <= '\u{200A}'
    ||| c == '\u{2028}'
    ||| c == '\u{2029}'
    ||| c == '\u{202F}'
    ||| c == '\u{205F}'
    ||| c == '\u{3000}'
}

/// Executable `is_white`.
pub fn is_white_exec(c: char) -> (r: bool)
    ensures
        r == is_white(c),
{
    ('\t' <= c && c <= '\r') || c == ' ' || c == '\u{85}' || c == '\u{A0}' || c == '\u{1680}'
        || ('\u{2000}' <= c && c <= '\u{200A}') || c == '\u{2028}' || c == '\u{2029}'
        || c == '\u{202F}' || c == '\u{205F}' || c == '\u{3000}'
}

/// `s` with the leading white space removed.
pub open spec fn trim_start_white(s: Seq<char>) -> Seq<char>
    decreases s.len(),
{
    if s.len() > 0 && is_white(s[0]) {
        trim_start_white(s.drop_first())
    } else {
        s
    }
}

/// `s` with the trailing white space removed.
pub open spec fn trim_end_white(s: Seq<char>) -> Seq<char>
    decreases s.len(),
{
    if s.len() > 0 && is_white(s.last()) {
        trim_end_white(s.drop_last())
    } else {
        s
    }
}

/// `s` without leading and trailing white space (as `str::trim`).
pub open spec fn trim_white(s: Seq<char>) -> Seq<char> {
    trim_end_white(trim_start_white(s))
}

/// Skipping a run of leading white space leaves the start-trimmed text unchanged.
proof fn lemma_trim_start_skip(s: Seq<char>, k: int)
    requires
        0 <= k <= s.len(),
        forall|j: int| 0 <= j < k ==> is_white(#[trigger] s[j]),
    ensures
        trim_start_white(s) == trim_start_white(s.subrange(k, s.len() as int)),
    decreases k,
{
    if k > 0 {
        assert(s.drop_first().subrange(k - 1, s.drop_first().len() as int) =~= s.subrange(k, s.len() as int));
        lemma_trim_start_skip(s.drop_first(), k - 1);
    } else {
        assert(s.subrange(0, s.len() as int) =~= s);
    }
}

proof fn lemma_trim_end_skip(s: Seq<char>, k: int)
    requires
        0 <= k <= s.len(),
        forall|j: int| k <= j < s.len() ==> is_white(#[trigger] s[j]),
    ensures
        trim_end_white(s) == trim_end_white(s.subrange(0, k)),
    decreases s.len() - k,
{
    if k < s.len() {
        assert(s.drop_last().subrange(0, k) =~= s.subrange(0, k));
        lemma_trim_end_skip(s.drop_last(), k);
    } else {
        assert(s.subrange(0, k) =~= s);
    }
}

/// `s` without leading and trailing white space.
pub fn trim(s: &[char]) -> (r: Vec<char>)
    ensures
        r@ == trim_white(s@),
{
    let mut a: usize = 0;
    while a < s.len() && is_white_exec(s[a])
        invariant
            a <= s@.len(),
            forall|j: int| 0 <= j < a ==> is_white(#[trigger] s@[j]),
        decreases s@.len() - a,
    {
        a = a + 1;
    }
    proof {
        lemma_trim_start_skip(s@, a as int);
    }
    let ghost t = s@.subrange(a as int, s@.len() as int);
    let mut b: usize = s.len();
    while b > a && is_white_exec(s[b - 1])
        invariant
            a <= b <= s@.len(),
            t == s@.subrange(a as int, s@.len() as int),
            forall|j: int| b <= j < s@.len() ==> is_white(#[trigger] s@[j]),
        decreases b - a,
    {
        b = b - 1;
    }
    proof {
        assert forall|j: int| (b - a) <= j < t.len() implies is_white(#[trigger] t[j]) by {
            assert(t[j] == s@[a + j]);
        }
        lemma_trim_end_skip(t, b - a);
        assert(t.subrange(0, b - a) =~= s@.subrange(a as int, b as int));
        if a < s@.len() {
            assert(!is_white(t[0]));
        }
        assert(trim_start_white(t) == t);
        if b > a {
            assert(!is_white(s@[b - 1]));
        }
        let u = s@.subrange(a as int, b as int);
        assert(trim_end_white(u) == u);
    }
    let mut r: Vec<char> = Vec::new();
    let mut i = a;
    while i < b
        invariant
            a <= i <= b <= s@.len(),
            r@ == s@.subrange(a as int, i as int),
        decreases b - i,
    {
        r.push(s[i]);
        assert(s@.subrange(a as int, i + 1) =~= s@.subrange(a as int, i as int).push(s@[i as int]));
        i = i + 1;
    }
    r
}


/// The digit character for `d` (`0`-`9`, then lower-case `a`-`f`).
pub open spec fn digit_char(d: nat) -> char {
    if d < 10 {
        (('0' as u32) + d) as char
    } else {
        (('a' as u32) + d - 10) as char
    }
}

/// The digits of `n` in base `base`, most significant first, without leading zeros
/// (as `{}` for base 10 and `{:x}` for base 16 format an unsigned integer).
pub open spec fn radix_digits(n: nat, base: nat) -> Seq<char>
    recommends
        base >= 2,
    decreases n,
{
    if base < 2 || n < base {
        seq![digit_char(n)]
    } else {
        proof {
            assert(n / base < n) by (nonlinear_arith)
                requires
                    base >= 2,
                    n >= base,
            ;
        }
        radix_digits(n / base, base).push(digit_char(n % base))
    }
}

/// The decimal digits of `n`.
pub open spec fn decimal(n: nat) -> Seq<char> {
    radix_digits(n, 10)
}

/// The lower-case hexadecimal digits of `n`.
pub open spec fn hex(n: nat) -> Seq<char> {
    radix_digits(n, 16)
}

/// The lowest `width` hexadecimal digits of `n`, zero-padded on the left.
pub open spec fn padded_hex(n: nat, width: nat) -> Seq<char>
    decreases width,
{
    if width == 0 {
        seq![]
    } else {
        padded_hex(n / 16, (width - 1) as nat).push(digit_char(n % 16))
    }
}

fn digit_exec(d: u128) -> (c: char)
    requires
        d < 16,
    ensures
        c == digit_char(d as nat),
{
    if d < 10 {
        let b: u8 = 48 + (d as u8);
        b as char
    } else {
        let b: u8 = 97 + (d as u8) - 10;
        b as char
    }
}

/// Formats `n` in base 10 or 16.
pub fn radix_string(n: u128, base: u128) -> (s: String)
    requires
        base == 10 || base == 16,
    ensures
        s@ == radix_digits(n as nat, base as nat),
{
    let mut tail: Vec<char> = Vec::new();
    let mut m = n;
    while m >= base
        invariant
            base == 10 || base == 16,
            radix_digits(n as nat, base as nat) == radix_digits(m as nat, base as nat) + tail@,
        decreases m,
    {
        let d = digit_exec(m % base);
        assert(radix_digits(m as nat, base as nat) == radix_digits((m / base) as nat, base as nat).push(d));
        tail.insert(0, d);
        assert(radix_digits((m / base) as nat, base as nat) + tail@ =~= radix_digits((m / base) as nat, base as nat).push(d) + tail@.drop_first());
        m = m / base;
    }
    let first = digit_exec(m);
    tail.insert(0, first);
    assert(radix_digits(m as nat, base as nat) =~= seq![first]);
    let s = string_from_chars(tail.as_slice(), 0, tail.len());
    assert(tail@.subrange(0, tail@.len() as int) =~= tail@);
    s
}

/// The 16 lower-case hexadecimal digits of `v`, zero-padded (as `{:016x}`).
pub fn padded_hex16(v: u64) -> (s: String)
    ensures
        s@ == padded_hex(v as nat, 16),
{
    let mut tail: Vec<char> = Vec::new();
    let mut m: u64 = v;
    let mut k: u64 = 16;
    while k > 0
        invariant
            k <= 16,
            padded_hex(v as nat, 16) == padded_hex(m as nat, k as nat) + tail@,
        decreases k,
    {
        let d = digit_exec((m % 16) as u128);
        assert(padded_hex(m as nat, k as nat) == padded_hex((m / 16) as nat, (k - 1) as nat).push(d));
        tail.insert(0, d);
        assert(padded_hex((m / 16) as nat, (k - 1) as nat) + tail@ =~= padded_hex((m / 16) as nat, (k - 1) as nat).push(d) + tail@.drop_first());
        m = m / 16;
        k = k - 1;
    }
    assert(padded_hex(m as nat, 0) + tail@ =~= tail@);
    let s = string_from_chars(tail.as_slice(), 0, tail.len());
    assert(tail@.subrange(0, tail@.len() as int) =~= tail@);
    s
}

} // verus!
