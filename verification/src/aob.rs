use vstd::prelude::*;
use vstd::string::*;

use crate::text;
use crate::text::{char_is_whitespace, string_of};

verus! {

// ---------------------------------------------------------------------------
// Splitting on whitespace
// ---------------------------------------------------------------------------

/// Scans `s` left to right: the tokens completed so far and the token under way.
pub open spec fn scan_tokens(s: Seq<char>) -> (Seq<Seq<char>>, Seq<char>)
    decreases s.len(),
{
    if s.len() == 0 {
        (seq![], seq![])
    } else {
        let (toks, cur) = scan_tokens(s.drop_last());
        if text::is_whitespace(s.last()) {
            if cur.len() > 0 {
                (toks.push(cur), seq![])
            } else {
                (toks, seq![])
            }
        } else {
            (toks, cur.push(s.last()))
        }
    }
}

/// The maximal runs of non-whitespace characters of `s`, in order, as
/// `str::split_whitespace` yields them.
pub open spec fn split_whitespace(s: Seq<char>) -> Seq<Seq<char>> {
    let (toks, cur) = scan_tokens(s);
    if cur.len() > 0 {
        toks.push(cur)
    } else {
        toks
    }
}

// ---------------------------------------------------------------------------
// Hexadecimal bytes
// ---------------------------------------------------------------------------

/// The value of a hexadecimal digit, either case.
pub open spec fn hex_digit_value(c: char) -> Option<nat> {
    let u = c as u32;
    if 48 <= u <= 57 {
        Some((u - 48) as nat)
    } else if 97 <= u <= 102 {
        Some((u - 87) as nat)
    } else if 65 <= u <= 70 {
        Some((u - 55) as nat)
    } else {
        None
    }
}

/// The value of a run of hexadecimal digits, or `None` if one is not a digit.
pub open spec fn hex_value(digits: Seq<char>) -> Option<nat>
    decreases digits.len(),
{
    if digits.len() == 0 {
        Some(0)
    } else {
        match hex_value(digits.drop_last()) {
            None => None,
            Some(v) => match hex_digit_value(digits.last()) {
                None => None,
                Some(d) => Some(16 * v + d),
            },
        }
    }
}

/// A byte written in hexadecimal, as `u8::from_str_radix(token, 16)` reads it:
/// an optional `+`, then at least one digit, with a value below 256.
pub open spec fn hex_byte(token: Seq<char>) -> Option<u8> {
    let digits = if token.len() > 0 && token[0] == '+' {
        token.drop_first()
    } else {
        token
    };
    if digits.len() == 0 {
        None
    } else {
        match hex_value(digits) {
            Some(v) => if v <= 255 {
                Some(v as u8)
            } else {
                None
            },
            None => None,
        }
    }
}

fn hex_digit(c: char) -> (r: Option<u32>)
    ensures
        match hex_digit_value(c) {
            Some(d) => r == Some(d as u32),
            None => r is None,
        },
{
    let u = c as u32;
    if 48 <= u && u <= 57 {
        Some(u - 48)
    } else if 97 <= u && u <= 102 {
        Some(u - 87)
    } else if 65 <= u && u <= 70 {
        Some(u - 55)
    } else {
        None
    }
}

fn parse_hex_byte(token: &str) -> (r: Option<u8>)
    ensures
        r == hex_byte(token@),
{
    let n = token.unicode_len();
    let first: usize = if n > 0 && token.get_char(0) == '+' {
        1
    } else {
        0
    };
    let ghost digits = if token@.len() > 0 && token@[0] == '+' {
        token@.drop_first()
    } else {
        token@
    };
    assert(digits =~= token@.subrange(first as int, n as int));
    if first == n {
        return None;
    }
    let mut acc: u32 = 0;
    let mut valid = true;
    let mut i = first;
    assert(digits.take(0) =~= Seq::<char>::empty());
    while i < n
        invariant
            n == token@.len(),
            first <= i <= n,
            digits =~= token@.subrange(first as int, n as int),
            valid == (hex_value(digits.take(i - first)) is Some),
            valid ==> acc <= 256,
            valid ==> (acc == if hex_value(digits.take(i - first))->0 <= 256 {
                hex_value(digits.take(i - first))->0
            } else {
                256
            }),
        decreases n - i,
    {
        let c = token.get_char(i);
        assert(digits.take(i + 1 - first).drop_last() =~= digits.take(i - first));
        assert(digits.take(i + 1 - first).last() == c);
        match hex_digit(c) {
            Some(d) => {
                if valid {
                    let next = 16 * acc + d;
                    acc = if next <= 256 {
                        next
                    } else {
                        256
                    };
                }
            },
            None => {
                valid = false;
            },
        }
        i = i + 1;
    }
    assert(digits.take(n - first) =~= digits);
    if valid && acc <= 255 {
        Some(acc as u8)
    } else {
        None
    }
}

// ---------------------------------------------------------------------------
// Patterns
// ---------------------------------------------------------------------------

/// What a pattern token stands for: `Some(None)` for the wildcard `??`,
/// `Some(Some(b))` for a byte, `None` for a token that is neither.
pub open spec fn token_entry(token: Seq<char>) -> Option<Option<u8>> {
    if token == seq!['?', '?'] {
        Some(None)
    } else {
        match hex_byte(token) {
            Some(b) => Some(Some(b)),
            None => None,
        }
    }
}

/// The message for a token that is neither a byte nor a wildcard.
pub open spec fn invalid_token_message(token: Seq<char>) -> Seq<char> {
    "invalid AOB token '"@ + token + "'"@
}

/// The pattern entries of `tokens`, or the message for the first bad one.
pub open spec fn parse_tokens(tokens: Seq<Seq<char>>) -> Result<Seq<Option<u8>>, Seq<char>>
    decreases tokens.len(),
{
    if tokens.len() == 0 {
        Ok(seq![])
    } else {
        match parse_tokens(tokens.drop_last()) {
            Err(e) => Err(e),
            Ok(p) => match token_entry(tokens.last()) {
                Some(x) => Ok(p.push(x)),
                None => Err(invalid_token_message(tokens.last())),
            },
        }
    }
}

/// The byte pattern written in `text`: whitespace-separated hexadecimal bytes
/// and `??` wildcards, at least one of them.
pub open spec fn aob_pattern(text: Seq<char>) -> Result<Seq<Option<u8>>, Seq<char>> {
    match parse_tokens(split_whitespace(text)) {
        Err(e) => Err(e),
        Ok(p) => if p.len() == 0 {
            Err("empty AOB pattern"@)
        } else {
            Ok(p)
        },
    }
}

fn pattern_entry(token: &str) -> (r: Option<Option<u8>>)
    ensures
        r == token_entry(token@),
{
    if token.unicode_len() == 2 && token.get_char(0) == '?' && token.get_char(1) == '?' {
        assert(token@ =~= seq!['?', '?']);
        Some(None)
    } else {
        match parse_hex_byte(token) {
            Some(b) => Some(Some(b)),
            None => None,
        }
    }
}

fn invalid_token(token: &str) -> (r: String)
    ensures
        r@ == invalid_token_message(token@),
{
    let mut msg = string_of("invalid AOB token '");
    msg.append(token);
    msg.append("'");
    msg
}

/// Parses an array-of-bytes pattern such as `"48 8B 05 ?? ?? ?? ??"`.
pub fn parse_aob(aob: &str) -> (r: Result<Vec<Option<u8>>, String>)
    ensures
        match r {
            Ok(p) => aob_pattern(aob@) == Ok::<Seq<Option<u8>>, Seq<char>>(p@),
            Err(e) => aob_pattern(aob@) == Err::<Seq<Option<u8>>, Seq<char>>(e@),
        },
{
    let n = aob.unicode_len();
    let mut out: Vec<Option<u8>> = Vec::new();
    let mut err: Option<String> = None;
    let mut start: usize = 0;
    let mut i: usize = 0;
    let ghost mut toks: Seq<Seq<char>> = seq![];
    assert(aob@.take(0) =~= Seq::<char>::empty());
    while i < n
        invariant
            n == aob@.len(),
            start <= i <= n,
            scan_tokens(aob@.take(i as int)) == (toks, aob@.subrange(start as int, i as int)),
            parse_tokens(toks) == match err {
                Some(e) => Err::<Seq<Option<u8>>, Seq<char>>(e@),
                None => Ok(out@),
            },
        decreases n - i,
    {
        let c = aob.get_char(i);
        assert(aob@.take(i + 1).drop_last() =~= aob@.take(i as int));
        assert(aob@.take(i + 1).last() == c);
        if char_is_whitespace(c) {
            if start < i {
                let token = aob.substring_char(start, i);
                let ghost prev = toks;
                proof {
                    toks = toks.push(token@);
                }
                assert(toks.drop_last() =~= prev);
                if err.is_none() {
                    match pattern_entry(token) {
                        Some(x) => out.push(x),
                        None => {
                            err = Some(invalid_token(token));
                        },
                    }
                }
            }
            start = i + 1;
            assert(aob@.subrange(start as int, i + 1) =~= Seq::<char>::empty());
        } else {
            assert(aob@.subrange(start as int, i + 1) =~= aob@.subrange(start as int, i as int).push(c));
        }
        i = i + 1;
    }
    assert(aob@.take(n as int) =~= aob@);
    if start < n {
        let token = aob.substring_char(start, n);
        let ghost prev = toks;
        proof {
            toks = toks.push(token@);
        }
        assert(toks.drop_last() =~= prev);
        if err.is_none() {
            match pattern_entry(token) {
                Some(x) => out.push(x),
                None => {
                    err = Some(invalid_token(token));
                },
            }
        }
    }
    match err {
        Some(e) => Err(e),
        None => if out.len() == 0 {
            Err(string_of("empty AOB pattern"))
        } else {
            Ok(out)
        },
    }
}

} // verus!

verus! {

// ---------------------------------------------------------------------------
// Searching
// ---------------------------------------------------------------------------

/// Whether `pattern` matches `haystack` at offset `i`: every byte entry equals
/// the byte there, and wildcards match anything.
pub open spec fn pattern_matches_at(haystack: Seq<u8>, pattern: Seq<Option<u8>>, i: int) -> bool {
    &&& 0 <= i
    &&& i + pattern.len() <= haystack.len()
    &&& forall|j: int|
        0 <= j < pattern.len() ==> (#[trigger] pattern[j]).is_some() ==> haystack[i + j]
            == pattern[j].unwrap()
}

/// The offsets below `bound` at which `pattern` matches, in increasing order.
pub open spec fn matches_below(haystack: Seq<u8>, pattern: Seq<Option<u8>>, bound: nat) -> Seq<usize>
    decreases bound,
{
    if bound == 0 {
        seq![]
    } else {
        let prev = matches_below(haystack, pattern, (bound - 1) as nat);
        if pattern_matches_at(haystack, pattern, bound - 1) {
            prev.push((bound - 1) as usize)
        } else {
            prev
        }
    }
}

/// Every offset at which `pattern` matches `haystack`, in increasing order.
pub open spec fn matching_offsets(haystack: Seq<u8>, pattern: Seq<Option<u8>>) -> Seq<usize> {
    if pattern.len() > haystack.len() {
        seq![]
    } else {
        matches_below(haystack, pattern, (haystack.len() - pattern.len() + 1) as nat)
    }
}

fn matches_at(haystack: &[u8], pattern: &[Option<u8>], i: usize) -> (r: bool)
    requires
        i + pattern@.len() <= haystack@.len(),
    ensures
        r == pattern_matches_at(haystack@, pattern@, i as int),
{
    let m = pattern.len();
    let mut j: usize = 0;
    while j < m
        invariant
            m == pattern@.len(),
            haystack@.len() == haystack.len(),
            i + m <= haystack@.len(),
            j <= m,
            forall|k: int|
                0 <= k < j ==> (#[trigger] pattern@[k]).is_some() ==> haystack@[i + k]
                    == pattern@[k].unwrap(),
        decreases m - j,
    {
        match pattern[j] {
            Some(expected) => {
                if haystack[i + j] != expected {
                    return false;
                }
            },
            None => {},
        }
        j = j + 1;
    }
    true
}

/// Every offset of `haystack` at which `pattern` matches, in increasing order.
pub fn find_pattern_all(haystack: &[u8], pattern: &[Option<u8>]) -> (r: Vec<usize>)
    ensures
        r@ == matching_offsets(haystack@, pattern@),
{
    let mut out: Vec<usize> = Vec::new();
    if pattern.len() > haystack.len() {
        return out;
    }
    let last = haystack.len() - pattern.len();
    let mut i: usize = 0;
    while i < last
        invariant
            last == haystack@.len() - pattern@.len(),
            pattern@.len() <= haystack@.len(),
            i <= last,
            out@ == matches_below(haystack@, pattern@, i as nat),
        decreases last - i,
    {
        if matches_at(haystack, pattern, i) {
            out.push(i);
        }
        i = i + 1;
    }
    if matches_at(haystack, pattern, last) {
        out.push(last);
    }
    out
}

/// The offsets `find_pattern_all` returns are exactly those where the pattern
/// matches, each once, in increasing order.
pub proof fn lemma_matching_offsets_exact(haystack: Seq<u8>, pattern: Seq<Option<u8>>)
    requires
        haystack.len() <= usize::MAX,
    ensures
        forall|k: int|
            0 <= k < matching_offsets(haystack, pattern).len() ==> pattern_matches_at(
                haystack,
                pattern,
                #[trigger] matching_offsets(haystack, pattern)[k] as int,
            ),
        forall|k: int, l: int|
            0 <= k < l < matching_offsets(haystack, pattern).len() ==> (#[trigger] matching_offsets(
                haystack,
                pattern,
            )[k]) < #[trigger] matching_offsets(haystack, pattern)[l],
        forall|i: int|
            pattern_matches_at(haystack, pattern, i) ==> #[trigger] matching_offsets(
                haystack,
                pattern,
            ).contains(i as usize),
{
    if pattern.len() <= haystack.len() {
        lemma_matches_below(haystack, pattern, (haystack.len() - pattern.len() + 1) as nat);
    }
}

proof fn lemma_matches_below(haystack: Seq<u8>, pattern: Seq<Option<u8>>, bound: nat)
    requires
        pattern.len() <= haystack.len(),
        haystack.len() <= usize::MAX,
        bound <= haystack.len() - pattern.len() + 1,
    ensures
        forall|k: int|
            0 <= k < matches_below(haystack, pattern, bound).len() ==> {
                &&& pattern_matches_at(
                    haystack,
                    pattern,
                    #[trigger] matches_below(haystack, pattern, bound)[k] as int,
                )
                &&& matches_below(haystack, pattern, bound)[k] < bound
            },
        forall|k: int, l: int|
            0 <= k < l < matches_below(haystack, pattern, bound).len() ==> (#[trigger] matches_below(
                haystack,
                pattern,
                bound,
            )[k]) < #[trigger] matches_below(haystack, pattern, bound)[l],
        forall|i: int|
            0 <= i < bound && pattern_matches_at(haystack, pattern, i) ==> #[trigger] matches_below(
                haystack,
                pattern,
                bound,
            ).contains(i as usize),
    decreases bound,
{
    if bound > 0 {
        let b1 = (bound - 1) as nat;
        lemma_matches_below(haystack, pattern, b1);
        let prev = matches_below(haystack, pattern, b1);
        let cur = matches_below(haystack, pattern, bound);
        if pattern_matches_at(haystack, pattern, b1 as int) {
            assert(cur == prev.push(b1 as usize));
            assert forall|k: int| 0 <= k < cur.len() implies pattern_matches_at(
                haystack,
                pattern,
                #[trigger] cur[k] as int,
            ) && cur[k] < bound by {
                if k < prev.len() {
                    assert(cur[k] == prev[k]);
                }
            }
            assert forall|k: int, l: int| 0 <= k < l < cur.len() implies (#[trigger] cur[k]) < #[trigger] cur[l] by {
                assert(cur[k] == prev[k]);
                if l < prev.len() {
                    assert(cur[l] == prev[l]);
                }
            }
            assert forall|i: int|
                0 <= i < bound && pattern_matches_at(haystack, pattern, i) implies cur.contains(
                i as usize,
            ) by {
                if i < b1 {
                    assert(prev.contains(i as usize));
                    let k = choose|k: int| 0 <= k < prev.len() && prev[k] == i as usize;
                    assert(cur[k] == i as usize);
                } else {
                    assert(cur[prev.len() as int] == i as usize);
                }
            }
        } else {
            assert forall|i: int|
                0 <= i < bound && pattern_matches_at(haystack, pattern, i) implies cur.contains(
                i as usize,
            ) by {
                assert(i < b1);
                assert(prev.contains(i as usize));
            }
        }
    }
}

} // verus!

verus! {

// ---------------------------------------------------------------------------
// Decoding the game manager address from pattern hits
// ---------------------------------------------------------------------------

/// The `i32` stored little-endian in four bytes.
pub open spec fn le_i32(b0: u8, b1: u8, b2: u8, b3: u8) -> int {
    let u = b0 + 256 * b1 + 65536 * b2 + 16777216 * b3;
    if u >= 0x8000_0000 {
        u - 0x1_0000_0000
    } else {
        u
    }
}

/// The address that the RIP-relative instruction found at `hit` refers to,
/// moved by `relative_offset`: the instruction's end (7 bytes past its start)
/// plus the 32-bit displacement at bytes 3..7, all in signed 64-bit arithmetic.
/// `None` where the instruction runs past the module or the sum leaves `i64`.
pub open spec fn hit_target(module_base: u64, bytes: Seq<u8>, hit: int, relative_offset: i64) -> Option<u64> {
    if hit + 7 > bytes.len() {
        None
    } else {
        let instr = ((module_base + hit) as u64) as i64;
        let disp = le_i32(bytes[hit + 3], bytes[hit + 4], bytes[hit + 5], bytes[hit + 6]);
        let after = instr + 7;
        let with_disp = after + disp;
        let target = with_disp + relative_offset;
        if after > i64::MAX || with_disp < i64::MIN || with_disp > i64::MAX || target < i64::MIN
            || target > i64::MAX {
            None
        } else {
            Some((target as i64) as u64)
        }
    }
}

/// The distinct targets of `hits`, in the order first found.
pub open spec fn collect_targets(module_base: u64, bytes: Seq<u8>, hits: Seq<usize>, relative_offset: i64) -> Seq<u64>
    decreases hits.len(),
{
    if hits.len() == 0 {
        seq![]
    } else {
        let prev = collect_targets(module_base, bytes, hits.drop_last(), relative_offset);
        match hit_target(module_base, bytes, hits.last() as int, relative_offset) {
            Some(t) => if prev.contains(t) {
                prev
            } else {
                prev.push(t)
            },
            None => prev,
        }
    }
}

/// The game manager addresses that `pattern_text` locates in a module loaded
/// at `module_base` whose bytes are `bytes`, or why there are none.
pub open spec fn game_manager_targets(module_base: u64, bytes: Seq<u8>, pattern_text: Seq<char>, relative_offset: i64) -> Result<Seq<u64>, Seq<char>> {
    match aob_pattern(pattern_text) {
        Err(e) => Err(e),
        Ok(pattern) => {
            let hits = matching_offsets(bytes, pattern);
            if hits.len() == 0 {
                Err("GameManagerImp AOB pattern not found in module"@)
            } else {
                let targets = collect_targets(module_base, bytes, hits, relative_offset);
                if targets.len() == 0 {
                    Err("failed to decode GameManagerImp target from AOB hits"@)
                } else {
                    Ok(targets)
                }
            }
        },
    }
}

/// Whether `v` holds `x`.
pub(crate) fn vec_contains_u64(v: &Vec<u64>, x: u64) -> (r: bool)
    ensures
        r == v@.contains(x),
{
    let mut i: usize = 0;
    while i < v.len()
        invariant
            i <= v@.len(),
            forall|k: int| 0 <= k < i ==> v@[k] != x,
        decreases v@.len() - i,
    {
        if v[i] == x {
            assert(v@[i as int] == x);
            return true;
        }
        i = i + 1;
    }
    false
}

fn decode_hit(module_base: u64, bytes: &[u8], hit: usize, relative_offset: i64) -> (r: Option<u64>)
    requires
        module_base + bytes@.len() <= u64::MAX,
        hit < bytes@.len(),
    ensures
        r == hit_target(module_base, bytes@, hit as int, relative_offset),
{
    if bytes.len() < 7 || hit > bytes.len() - 7 {
        return None;
    }
    let instr_addr: u64 = module_base + hit as u64;
    let u: u64 = bytes[hit + 3] as u64 + 256 * (bytes[hit + 4] as u64) + 65536 * (bytes[hit + 5] as u64)
        + 16777216 * (bytes[hit + 6] as u64);
    let disp: i64 = if u >= 0x8000_0000 {
        u as i64 - 0x1_0000_0000
    } else {
        u as i64
    };
    let signed_instr = instr_addr as i64;
    let after = match signed_instr.checked_add(7) {
        Some(v) => v,
        None => return None,
    };
    let with_disp = match after.checked_add(disp) {
        Some(v) => v,
        None => return None,
    };
    let target = match with_disp.checked_add(relative_offset) {
        Some(v) => v,
        None => return None,
    };
    Some(target as u64)
}

/// Finds the game manager addresses that a byte pattern locates in a module:
/// each place where the pattern matches holds a RIP-relative instruction whose
/// target, moved by `relative_offset`, is a candidate address.
pub fn game_manager_targets_in_module(
    module_base: u64,
    bytes: &[u8],
    aob_pattern_text: &str,
    relative_offset: i64,
) -> (r: Result<Vec<u64>, String>)
    requires
        module_base + bytes@.len() <= u64::MAX,
    ensures
        match r {
            Ok(t) => game_manager_targets(module_base, bytes@, aob_pattern_text@, relative_offset)
                == Ok::<Seq<u64>, Seq<char>>(t@),
            Err(e) => game_manager_targets(module_base, bytes@, aob_pattern_text@, relative_offset)
                == Err::<Seq<u64>, Seq<char>>(e@),
        },
{
    let pattern = match parse_aob(aob_pattern_text) {
        Ok(p) => p,
        Err(e) => return Err(e),
    };
    let hits = find_pattern_all(bytes, pattern.as_slice());
    if hits.len() == 0 {
        return Err(string_of("GameManagerImp AOB pattern not found in module"));
    }
    let byte_count = bytes.len();
    assert(byte_count == bytes@.len());
    proof {
        lemma_matching_offsets_exact(bytes@, pattern@);
    }
    let mut out: Vec<u64> = Vec::new();
    let mut k: usize = 0;
    assert(hits@.take(0) =~= Seq::<usize>::empty());
    while k < hits.len()
        invariant
            k <= hits@.len(),
            module_base + bytes@.len() <= u64::MAX,
            hits@ == matching_offsets(bytes@, pattern@),
            forall|j: int| 0 <= j < hits@.len() ==> (#[trigger] hits@[j]) < bytes@.len(),
            out@ == collect_targets(module_base, bytes@, hits@.take(k as int), relative_offset),
        decreases hits@.len() - k,
    {
        let hit = hits[k];
        assert(hits@.take(k + 1).drop_last() =~= hits@.take(k as int));
        match decode_hit(module_base, bytes, hit, relative_offset) {
            Some(t) => {
                if !vec_contains_u64(&out, t) {
                    out.push(t);
                }
            },
            None => {},
        }
        k = k + 1;
    }
    assert(hits@.take(hits@.len() as int) =~= hits@);
    if out.len() == 0 {
        return Err(string_of("failed to decode GameManagerImp target from AOB hits"));
    }
    Ok(out)
}

} // verus!
