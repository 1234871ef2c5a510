use vstd::prelude::*;
use vstd::string::*;

verus! {

/// Appends `c` to `s`.
#[verifier::external_body]
pub(crate) fn push_char(s: &mut String, c: char)
    ensures
        final(s)@ == old(s)@.push(c),
{
    s.push(c);
}

/// The character of a decimal digit.
pub open spec fn decimal_digit(d: nat) -> char {
    ((48 + d) as u32) as char
}

/// The decimal representation of `n`, most significant digit first.
pub open spec fn decimal(n: nat) -> Seq<char>
    decreases n,
{
    if n < 10 {
        seq![decimal_digit(n)]
    } else {
        decimal(n / 10).push(decimal_digit(n % 10))
    }
}

/// The decimal representation of a signed number, as `{}` writes it.
pub open spec fn signed_decimal(v: int) -> Seq<char> {
    if v < 0 {
        seq!['-'] + decimal((-v) as nat)
    } else {
        decimal(v as nat)
    }
}

/// The character of an upper-case hexadecimal digit.
pub open spec fn hex_digit_upper(d: nat) -> char {
    if d < 10 {
        ((48 + d) as u32) as char
    } else {
        ((55 + d) as u32) as char
    }
}

/// The upper-case hexadecimal representation of `n`, as `{:X}` writes it.
pub open spec fn hex_upper(n: nat) -> Seq<char>
    decreases n,
{
    if n < 16 {
        seq![hex_digit_upper(n)]
    } else {
        hex_upper(n / 16).push(hex_digit_upper(n % 16))
    }
}

fn digit_char(d: u64) -> (c: char)
    requires
        d < 16,
    ensures
        c == hex_digit_upper(d as nat),
        d < 10 ==> c == decimal_digit(d as nat),
{
    if d < 10 {
        ((48 + d) as u8) as char
    } else {
        ((55 + d) as u8) as char
    }
}

/// Appends the decimal representation of `n`.
pub(crate) fn push_decimal(s: &mut String, n: u64)
    ensures
        final(s)@ == old(s)@ + decimal(n as nat),
    decreases n,
{
    if n >= 10 {
        push_decimal(s, n / 10);
    }
    push_char(s, digit_char(n % 10));
    assert(final(s)@ =~= old(s)@ + decimal(n as nat));
}

/// Appends the decimal representation of a signed number.
pub(crate) fn push_signed_decimal(s: &mut String, v: i64)
    requires
        v > i64::MIN,
    ensures
        final(s)@ == old(s)@ + signed_decimal(v as int),
{
    if v < 0 {
        push_char(s, '-');
        push_decimal(s, (-v) as u64);
        assert(final(s)@ =~= old(s)@ + signed_decimal(v as int));
    } else {
        push_decimal(s, v as u64);
    }
}

/// Appends the upper-case hexadecimal representation of `n`.
pub(crate) fn push_hex_upper(s: &mut String, n: u64)
    ensures
        final(s)@ == old(s)@ + hex_upper(n as nat),
    decreases n,
{
    if n >= 16 {
        push_hex_upper(s, n / 16);
    }
    push_char(s, digit_char(n % 16));
    assert(final(s)@ =~= old(s)@ + hex_upper(n as nat));
}

/// Whether `c` has the Unicode White_Space property, as `char::is_whitespace` documents it.
pub open spec fn is_whitespace(c: char) -> bool {
    let u = c as u32;
    ||| 0x9 <= u <= 0xD
    ||| u == 0x20
    ||| u == 0x85
    ||| u == 0xA0
    ||| u == 0x1680
    ||| 0x2000 <= u <= 0x200A
    ||| u == 0x2028
    ||| u == 0x2029
    ||| u == 0x202F
    ||| u == 0x205F
    ||| u == 0x3000
}

pub(crate) fn char_is_whitespace(c: char) -> (r: bool)
    ensures
        r == is_whitespace(c),
{
    let u = c as u32;
    (0x9 <= u && u <= 0xD) || u == 0x20 || u == 0x85 || u == 0xA0 || u == 0x1680 || (0x2000 <= u
        && u <= 0x200A) || u == 0x2028 || u == 0x2029 || u == 0x202F || u == 0x205F || u == 0x3000
}

/// A new string holding `s`.
pub(crate) fn string_of(s: &str) -> (r: String)
    ensures
        r@ == s@,
{
    String::from_str(s)
}

} // verus!

verus! {

/// The characters of `s`, in order.
pub(crate) fn chars_of(s: &str) -> (v: Vec<char>)
    ensures
        v@ == s@,
{
    broadcast use vstd::string::group_string_axioms;

    let mut it = s.chars();
    let mut v: Vec<char> = Vec::new();
    loop
        invariant
            vstd::std_specs::iter::IteratorSpec::remaining(&it) == s@.skip(v@.len() as int),
            v@ == s@.take(v@.len() as int),
            v@.len() <= s@.len(),
        ensures
            v@ == s@,
        decreases s@.len() - v@.len(),
    {
        match it.next() {
            Some(c) => {
                v.push(c);
            },
            None => {
                assert(s@.skip(v@.len() as int).len() == 0);
                assert(v@ =~= s@);
                break;
            },
        }
    }
    v
}

} // verus!

verus! {

/// The first index in `from..to` whose character satisfies `p`, or `to` if none does.
pub open spec fn scan_chars(s: Seq<char>, p: spec_fn(char) -> bool, from: int, to: int) -> int
    decreases to - from,
{
    if from >= to {
        to
    } else if p(s[from]) {
        from
    } else {
        scan_chars(s, p, from + 1, to)
    }
}

/// Whether `pat` occurs in `s` at `i`.
pub open spec fn occurs_at(s: Seq<char>, pat: Seq<char>, i: int) -> bool {
    0 <= i && i + pat.len() <= s.len() && s.subrange(i, i + pat.len()) == pat
}

/// The first index from `i` on at which `pat` occurs in `s`.
pub open spec fn find_chars(s: Seq<char>, pat: Seq<char>, i: int) -> Option<int>
    decreases s.len() + 1 - i,
{
    if i < 0 || i + pat.len() > s.len() {
        None
    } else if occurs_at(s, pat, i) {
        Some(i)
    } else {
        find_chars(s, pat, i + 1)
    }
}

/// The first index in `from..to` holding `c`, or `to`.
pub(crate) fn scan_for(s: &Vec<char>, c: char, from: usize, to: usize) -> (r: usize)
    requires
        from <= to <= s@.len(),
    ensures
        from <= r <= to,
        r == scan_chars(s@, |x: char| x == c, from as int, to as int),
{
    let mut i = from;
    while i < to
        invariant
            from <= i <= to <= s@.len(),
            scan_chars(s@, |x: char| x == c, from as int, to as int) == scan_chars(s@, |x: char| x == c, i as int, to as int),
        decreases to - i,
    {
        if s[i] == c {
            return i;
        }
        i = i + 1;
    }
    i
}

/// The first index in `from..to` not holding `c`, or `to`.
pub(crate) fn scan_past(s: &Vec<char>, c: char, from: usize, to: usize) -> (r: usize)
    requires
        from <= to <= s@.len(),
    ensures
        from <= r <= to,
        r == scan_chars(s@, |x: char| x != c, from as int, to as int),
{
    let mut i = from;
    while i < to
        invariant
            from <= i <= to <= s@.len(),
            scan_chars(s@, |x: char| x != c, from as int, to as int) == scan_chars(s@, |x: char| x != c, i as int, to as int),
        decreases to - i,
    {
        if s[i] != c {
            return i;
        }
        i = i + 1;
    }
    i
}

/// The first index in `from..to` whose character is not whitespace, or `to`.
pub(crate) fn scan_past_whitespace(s: &Vec<char>, from: usize, to: usize) -> (r: usize)
    requires
        from <= to <= s@.len(),
    ensures
        from <= r <= to,
        r == scan_chars(s@, |x: char| !is_whitespace(x), from as int, to as int),
{
    let mut i = from;
    while i < to
        invariant
            from <= i <= to <= s@.len(),
            scan_chars(s@, |x: char| !is_whitespace(x), from as int, to as int) == scan_chars(s@, |x: char| !is_whitespace(x), i as int, to as int),
        decreases to - i,
    {
        if !char_is_whitespace(s[i]) {
            return i;
        }
        i = i + 1;
    }
    i
}

/// The first index from `from` on at which `pat` occurs in `s`.
pub(crate) fn find_in(s: &Vec<char>, pat: &Vec<char>, from: usize) -> (r: Option<usize>)
    requires
        from <= s@.len(),
    ensures
        r matches Some(i) ==> occurs_at(s@, pat@, i as int),
        match r {
            Some(i) => find_chars(s@, pat@, from as int) == Some(i as int),
            None => find_chars(s@, pat@, from as int) is None,
        },
{
    if pat.len() > s.len() {
        return None;
    }
    let last = s.len() - pat.len();
    let mut i = from;
    while i <= last
        invariant
            from <= i,
            last == s@.len() - pat@.len(),
            pat@.len() <= s@.len(),
            find_chars(s@, pat@, from as int) == find_chars(s@, pat@, i as int),
        decreases last + 1 - i,
    {
        let mut j: usize = 0;
        let mut same = true;
        while j < pat.len()
            invariant
                i <= last,
                last == s@.len() - pat@.len(),
                s@.len() == s.len(),
                j <= pat@.len(),
                same == (forall|k: int| 0 <= k < j ==> s@[i + k] == pat@[k]),
            decreases pat@.len() - j,
        {
            if s[i + j] != pat[j] {
                same = false;
            }
            j = j + 1;
        }
        if same {
            assert(s@.subrange(i as int, i + pat@.len()) =~= pat@);
            return Some(i);
        }
        assert(!occurs_at(s@, pat@, i as int)) by {
            if occurs_at(s@, pat@, i as int) {
                assert forall|k: int| 0 <= k < pat@.len() implies s@[i + k] == pat@[k] by {
                    assert(s@.subrange(i as int, i + pat@.len())[k] == s@[i + k]);
                }
            }
        }
        if i == last {
            assert(find_chars(s@, pat@, i + 1) is None);
            return None;
        }
        i = i + 1;
    }
    None
}

/// A string holding the characters `from..to` of `s`.
pub(crate) fn string_from_chars(s: &Vec<char>, from: usize, to: usize) -> (r: String)
    requires
        from <= to <= s@.len(),
    ensures
        r@ == s@.subrange(from as int, to as int),
{
    let mut r = String::new();
    let mut i = from;
    while i < to
        invariant
            from <= i <= to <= s@.len(),
            r@ == s@.subrange(from as int, i as int),
        decreases to - i,
    {
        push_char(&mut r, s[i]);
        i = i + 1;
        assert(r@ =~= s@.subrange(from as int, i as int));
    }
    r
}

/// The code point of `c`, with an ASCII upper-case letter taken as its
/// lower-case one.
pub open spec fn ascii_folded(c: char) -> u32 {
    let u = c as u32;
    if 0x41 <= u <= 0x5A {
        (u + 32) as u32
    } else {
        u
    }
}

/// Whether `a` and `b` are the same name when ASCII letters are compared
/// without regard to case.
pub fn names_match(a: &str, b: &str) -> (r: bool)
    ensures
        r == (a@.len() == b@.len() && forall|i: int| 0 <= i < a@.len() ==> ascii_folded(a@[i]) == ascii_folded(b@[i])),
{
    let x = chars_of(a);
    let y = chars_of(b);
    if x.len() != y.len() {
        return false;
    }
    let mut i: usize = 0;
    while i < x.len()
        invariant
            x@ == a@,
            y@ == b@,
            x@.len() == y@.len(),
            i <= x@.len(),
            forall|j: int| 0 <= j < i ==> ascii_folded(a@[j]) == ascii_folded(b@[j]),
        decreases x@.len() - i,
    {
        let u = x[i] as u32;
        let v = y[i] as u32;
        let fu = if 0x41 <= u && u <= 0x5A {
            u + 32
        } else {
            u
        };
        let fv = if 0x41 <= v && v <= 0x5A {
            v + 32
        } else {
            v
        };
        if fu != fv {
            assert(ascii_folded(a@[i as int]) != ascii_folded(b@[i as int]));
            return false;
        }
        i = i + 1;
    }
    true
}

/// `c`, with NUL read as a space.
pub open spec fn nul_as_space(c: char) -> char {
    if c == '\0' {
        ' '
    } else {
        c
    }
}

/// `s` with every NUL character replaced by a space, so that it can be
/// handed on as a C string.
pub fn replace_nul(s: &str) -> (r: String)
    ensures
        r@ == s@.map_values(|c: char| nul_as_space(c)),
{
    let chars = chars_of(s);
    let mut r = String::new();
    let mut i: usize = 0;
    while i < chars.len()
        invariant
            i <= chars@.len(),
            chars@ == s@,
            r@ == s@.take(i as int).map_values(|c: char| nul_as_space(c)),
        decreases chars@.len() - i,
    {
        let c = chars[i];
        let shown = if c == '\0' {
            ' '
        } else {
            c
        };
        push_char(&mut r, shown);
        assert(s@.take(i + 1) =~= s@.take(i as int).push(c));
        assert(s@.take(i + 1).map_values(|c: char| nul_as_space(c)) =~= s@.take(i as int).map_values(
            |c: char| nul_as_space(c),
        ).push(shown));
        i = i + 1;
    }
    assert(s@.take(s@.len() as int) =~= s@);
    r
}

} // verus!

verus! {

/// UTF-16 code units decoded: a unit outside the surrogate range is its own
/// character, a high surrogate followed by a low one is the pair's
/// character, and every other surrogate is replaced by U+FFFD, after which
/// decoding goes on with the next unit.
pub open spec fn utf16_lossy(units: Seq<u16>) -> Seq<char>
    decreases units.len(),
{
    if units.len() == 0 {
        seq![]
    } else {
        let u = units[0];
        if u < 0xD800 || u > 0xDFFF {
            seq![u as char] + utf16_lossy(units.drop_first())
        } else if u <= 0xDBFF && units.len() >= 2 && 0xDC00 <= units[1] <= 0xDFFF {
            seq![(0x10000 + (u - 0xD800) * 0x400 + (units[1] - 0xDC00)) as char] + utf16_lossy(units.skip(2))
        } else {
            seq!['\u{FFFD}'] + utf16_lossy(units.drop_first())
        }
    }
}

/// Decodes UTF-16 by `String::from_utf16_lossy`, which replaces each unpaired
/// surrogate by U+FFFD.
#[verifier::external_body]
fn decode_utf16_lossy(units: &[u16]) -> (r: String)
    ensures
        r@ == utf16_lossy(units@),
{
    String::from_utf16_lossy(units)
}

/// The code units before the first zero, or all of them.
pub open spec fn before_nul(units: Seq<u16>) -> Seq<u16> {
    let end = if exists|i: int| 0 <= i < units.len() && units[i] == 0 {
        choose|i: int| 0 <= i < units.len() && units[i] == 0 && forall|j: int| 0 <= j < i ==> units[j] != 0
    } else {
        units.len() as int
    };
    units.take(end)
}

/// A prefix of `s` as a new vector.
fn prefix_u16(s: &[u16], n: usize) -> (r: Vec<u16>)
    requires
        n <= s@.len(),
    ensures
        r@ == s@.take(n as int),
{
    let mut r: Vec<u16> = Vec::new();
    let mut i: usize = 0;
    while i < n
        invariant
            i <= n <= s@.len(),
            r@ == s@.take(i as int),
        decreases n - i,
    {
        r.push(s[i]);
        i = i + 1;
        assert(r@ =~= s@.take(i as int));
    }
    r
}

/// The string in a zero-terminated UTF-16 buffer.
pub fn utf16z_to_string(buf: &[u16]) -> (r: String)
    ensures
        r@ == utf16_lossy(before_nul(buf@)),
{
    let mut end: usize = 0;
    while end < buf.len() && buf[end] != 0
        invariant
            end <= buf@.len(),
            forall|j: int| 0 <= j < end ==> buf@[j] != 0,
        decreases buf@.len() - end,
    {
        end = end + 1;
    }
    proof {
        if exists|i: int| 0 <= i < buf@.len() && buf@[i] == 0 {
            let c = choose|i: int| 0 <= i < buf@.len() && buf@[i] == 0 && forall|j: int| 0 <= j < i ==> buf@[j] != 0;
            assert(0 <= c < buf@.len() && buf@[c] == 0 && forall|j: int| 0 <= j < c ==> buf@[j] != 0) by {
                let w = choose|i: int| 0 <= i < buf@.len() && buf@[i] == 0;
                lemma_first_zero(buf@, w);
            }
            assert(end == c) by {
                if end < c {
                    assert(buf@[end as int] != 0);
                } else if c < end {
                    assert(buf@[c] != 0);
                }
            }
        }
    }
    let head = prefix_u16(buf, end);
    decode_utf16_lossy(head.as_slice())
}

/// Where a zero occurs, there is a first one.
proof fn lemma_first_zero(units: Seq<u16>, w: int)
    requires
        0 <= w < units.len(),
        units[w] == 0,
    ensures
        exists|i: int| 0 <= i < units.len() && units[i] == 0 && forall|j: int| 0 <= j < i ==> units[j] != 0,
    decreases w,
{
    if exists|j: int| 0 <= j < w && units[j] == 0 {
        let j = choose|j: int| 0 <= j < w && units[j] == 0;
        lemma_first_zero(units, j);
    } else {
        assert(forall|j: int| 0 <= j < w ==> units[j] != 0);
    }
}

} // verus!
