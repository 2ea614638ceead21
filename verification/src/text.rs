//! Verified text helpers: the string building and scanning that the bot's
//! message formatting, rule construction and parsing rest on.

use vstd::prelude::*;
use vstd::string::*;

verus! {

broadcast use vstd::string::group_string_axioms;

// ---------------------------------------------------------------------------
// Specifications over character sequences
// ---------------------------------------------------------------------------

/// The character that stands for a decimal digit.
pub open spec fn digit_of(d: nat) -> char
    recommends
        d < 10,
{
    (('0' as u32) + d) as char
}

/// The decimal notation of `n`, without sign or leading zeros.
pub open spec fn dec(n: nat) -> Seq<char>
    decreases n,
{
    if n < 10 {
        seq![digit_of(n)]
    } else {
        dec(n / 10).push(digit_of(n % 10))
    }
}

/// `{:02}` of a non-negative number: at least two digits, zero-padded.
pub open spec fn dec2(n: nat) -> Seq<char> {
    if n < 10 {
        seq!['0', digit_of(n)]
    } else {
        dec(n)
    }
}

/// The decimal notation of a signed number (`-` before negative ones).
pub open spec fn dec_int(n: int) -> Seq<char> {
    if n < 0 {
        seq!['-'] + dec((-n) as nat)
    } else {
        dec(n as nat)
    }
}

pub open spec fn starts_with(s: Seq<char>, p: Seq<char>) -> bool {
    p.len() <= s.len() && s.subrange(0, p.len() as int) == p
}

pub open spec fn ends_with(s: Seq<char>, p: Seq<char>) -> bool {
    p.len() <= s.len() && s.subrange(s.len() - p.len(), s.len() as int) == p
}

/// `p` occurs in `s` at position `i`.
pub open spec fn occurs_at(s: Seq<char>, p: Seq<char>, i: int) -> bool {
    0 <= i && i + p.len() <= s.len() && s.subrange(i, i + p.len()) == p
}

pub open spec fn contains(s: Seq<char>, p: Seq<char>) -> bool {
    exists|i: int| occurs_at(s, p, i)
}

/// `rep` before, between and after the characters of `s`.
pub open spec fn interleave(s: Seq<char>, rep: Seq<char>) -> Seq<char>
    decreases s.len(),
{
    if s.len() == 0 {
        rep
    } else {
        rep + seq![s[0]] + interleave(s.drop_first(), rep)
    }
}

/// `s` with every occurrence of `pat`, scanned from the left without
/// overlaps, replaced by `rep`, as `str::replace` gives it: the empty pattern
/// occurs before, between and after the characters.
pub open spec fn replace(s: Seq<char>, pat: Seq<char>, rep: Seq<char>) -> Seq<char>
    decreases s.len(),
{
    if pat.len() == 0 {
        interleave(s, rep)
    } else if s.len() < pat.len() {
        s
    } else if s.subrange(0, pat.len() as int) == pat {
        rep + replace(s.subrange(pat.len() as int, s.len() as int), pat, rep)
    } else {
        seq![s[0]] + replace(s.drop_first(), pat, rep)
    }
}

pub open spec fn ascii_lower_char(c: char) -> char {
    if 'A' <= c && c <= 'Z' {
        ((c as u32) + 32) as char
    } else {
        c
    }
}

pub open spec fn ascii_lower(s: Seq<char>) -> Seq<char> {
    s.map_values(|c: char| ascii_lower_char(c))
}

/// Whether `c` has the Unicode `White_Space` property, as `char::is_whitespace`
/// reports it: tab, line feed, vertical tab, form feed, carriage return and
/// space; next line and no-break space; the ogham space mark; the spaces from
/// en quad to hair space; the line and paragraph separators; the narrow
/// no-break, medium mathematical and ideographic spaces.
pub open spec fn white_space(c: char) -> bool {
    let u = c as u32;
    ||| 0x09 <= u <= 0x0D
    ||| u == 0x20
    ||| u == 0x85
    ||| u == 0xA0
    ||| u == 0x1680
    ||| 0x2000 <= u <= 0x200A
    ||| u == 0x2028
    ||| u == 0x2029
    ||| u == 0x202F
    ||| u == 0x205F
    ||| u == 0x3000
}

/// Number of leading white-space characters of `s`.
pub open spec fn lead_ws(s: Seq<char>) -> nat
    decreases s.len(),
{
    if s.len() > 0 && white_space(s[0]) {
        1 + lead_ws(s.drop_first())
    } else {
        0
    }
}

/// Number of trailing white-space characters of `s`.
pub open spec fn trail_ws(s: Seq<char>) -> nat
    decreases s.len(),
{
    if s.len() > 0 && white_space(s.last()) {
        1 + trail_ws(s.drop_last())
    } else {
        0
    }
}

/// `s` without leading white space.
pub open spec fn trim_start(s: Seq<char>) -> Seq<char> {
    s.skip(lead_ws(s) as int)
}

/// `s` without leading and trailing white space, as `str::trim` gives it.
pub open spec fn trim(s: Seq<char>) -> Seq<char> {
    let t = trim_start(s);
    t.take(t.len() - trail_ws(t))
}

// ---------------------------------------------------------------------------
// Calls into std that vstd leaves unspecified
// ---------------------------------------------------------------------------

/// `String::push`: appends one character at the end.
#[verifier::external_body]
pub(crate) fn push_char(s: &mut String, c: char)
    ensures
        final(s)@ == old(s)@.push(c),
{
    s.push(c);
}


/// The full Unicode lower-case mapping of a string, as `str::to_lowercase`
/// gives it (special casing included).
pub uninterp spec fn lowercase(s: Seq<char>) -> Seq<char>;

/// `str::to_lowercase`: the Unicode lower-case form of `s`, which
/// [`lowercase`] names; the mapping tables are not restated here.
#[verifier::external_body]
pub(crate) fn to_lowercase(s: &str) -> (r: String)
    ensures
        r@ == lowercase(s@),
{
    s.to_lowercase()
}

// ---------------------------------------------------------------------------
// Verified helpers
// ---------------------------------------------------------------------------

/// Whether `c` is white space.
pub(crate) fn is_whitespace(c: char) -> (r: bool)
    ensures
        r == white_space(c),
{
    let u = c as u32;
    (0x09 <= u && u <= 0x0D) || u == 0x20 || u == 0x85 || u == 0xA0 || u == 0x1680 || (0x2000 <= u
        && u <= 0x200A) || u == 0x2028 || u == 0x2029 || u == 0x202F || u == 0x205F || u == 0x3000
}

/// The characters of `s`, in order.
pub fn chars_of(s: &str) -> (v: Vec<char>)
    ensures
        v@ == s@,
{
    let mut it = s.chars();
    let mut v: Vec<char> = Vec::new();
    loop
        invariant
            v@ + vstd::std_specs::iter::IteratorSpec::remaining(&it) == s@,
            vstd::std_specs::iter::IteratorSpec::obeys_prophetic_iter_laws(&it),
            vstd::std_specs::iter::IteratorSpec::decrease(&it) is Some,
        decreases vstd::std_specs::iter::IteratorSpec::decrease(&it)->0,
    {
        let ghost before = vstd::std_specs::iter::IteratorSpec::remaining(&it);
        match it.next() {
            Some(c) => {
                v.push(c);
                assert(v@ + vstd::std_specs::iter::IteratorSpec::remaining(&it) == s@) by {
                    assert(before == seq![c] + before.drop_first());
                }
            },
            None => {
                assert(v@ == s@);
                return v;
            },
        }
    }
}

/// A string made of the characters of `v`.
pub fn string_of(v: &[char]) -> (s: String)
    ensures
        s@ == v@,
{
    let mut s = String::new();
    let mut i: usize = 0;
    while i < v.len()
        invariant
            i <= v.len(),
            s@ == v@.subrange(0, i as int),
        decreases v.len() - i,
    {
        push_char(&mut s, v[i]);
        i += 1;
        assert(s@ == v@.subrange(0, i as int));
    }
    assert(v@.subrange(0, v@.len() as int) == v@);
    s
}

/// Appends the characters of `t` to `s`.
pub fn push_str(s: &mut String, t: &str)
    ensures
        final(s)@ == old(s)@ + t@,
{
    s.append(t);
}

/// The character of a decimal digit.
pub fn digit_char(d: u64) -> (r: char)
    requires
        d < 10,
    ensures
        r == digit_of(d as nat),
{
    let b: u8 = d as u8;
    ((48u8 + b) as char)
}

/// Appends the decimal notation of `n` to `s` (`{}` of an unsigned number).
pub fn push_dec(s: &mut String, n: u64)
    ensures
        final(s)@ == old(s)@ + dec(n as nat),
    decreases n,
{
    if n < 10 {
        push_char(s, digit_char(n));
        assert(dec(n as nat) == seq![digit_of(n as nat)]);
    } else {
        push_dec(s, n / 10);
        push_char(s, digit_char(n % 10));
        assert(dec(n as nat) == dec((n / 10) as nat).push(digit_of((n % 10) as nat)));
    }
}

/// The decimal notation of `n`.
pub fn dec_string(n: u64) -> (s: String)
    ensures
        s@ == dec(n as nat),
{
    let mut s = String::new();
    push_dec(&mut s, n);
    s
}

/// Appends `{:02}` of `n` to `s`.
pub fn push_dec2(s: &mut String, n: u64)
    ensures
        final(s)@ == old(s)@ + dec2(n as nat),
{
    if n < 10 {
        push_char(s, '0');
        push_char(s, digit_char(n));
    } else {
        push_dec(s, n);
    }
}

/// Appends the decimal notation of a signed number to `s`.
pub fn push_dec_int(s: &mut String, n: i64)
    ensures
        final(s)@ == old(s)@ + dec_int(n as int),
{
    if n < 0 {
        push_char(s, '-');
        let m: u64 = if n == i64::MIN { 9223372036854775808u64 } else { (-n) as u64 };
        push_dec(s, m);
    } else {
        push_dec(s, n as u64);
    }
}

/// Whether `s` begins with `p`.
pub fn seq_starts_with(s: &[char], p: &[char]) -> (r: bool)
    ensures
        r == starts_with(s@, p@),
{
    if p.len() > s.len() {
        return false;
    }
    let mut i: usize = 0;
    while i < p.len()
        invariant
            p.len() <= s.len(),
            i <= p.len(),
            forall|j: int| 0 <= j < i ==> s@[j] == p@[j],
        decreases p.len() - i,
    {
        if s[i] != p[i] {
            assert(s@.subrange(0, p@.len() as int)[i as int] != p@[i as int]);
            return false;
        }
        i += 1;
    }
    assert(s@.subrange(0, p@.len() as int) == p@);
    true
}

/// Whether `p` occurs in `s` at position `at`.
pub fn seq_occurs_at(s: &[char], p: &[char], at: usize) -> (r: bool)
    ensures
        r == occurs_at(s@, p@, at as int),
{
    if at > s.len() || p.len() > s.len() - at {
        return false;
    }
    let mut i: usize = 0;
    while i < p.len()
        invariant
            at + p.len() <= s.len(),
            i <= p.len(),
            forall|j: int| 0 <= j < i ==> s@[at + j] == p@[j],
        decreases p.len() - i,
    {
        if s[at + i] != p[i] {
            assert(s@.subrange(at as int, at + p@.len())[i as int] != p@[i as int]);
            return false;
        }
        i += 1;
    }
    assert(s@.subrange(at as int, at + p@.len()) == p@);
    true
}

/// Whether `s` ends with `p`.
pub fn seq_ends_with(s: &[char], p: &[char]) -> (r: bool)
    ensures
        r == ends_with(s@, p@),
{
    if p.len() > s.len() {
        return false;
    }
    seq_occurs_at(s, p, s.len() - p.len())
}

/// Whether `p` occurs somewhere in `s`.
pub fn seq_contains(s: &[char], p: &[char]) -> (r: bool)
    ensures
        r == contains(s@, p@),
{
    if p.len() > s.len() {
        return false;
    }
    let last = s.len() - p.len();
    let mut i: usize = 0;
    loop
        invariant
            last == s.len() - p.len(),
            i <= last,
            forall|j: int| 0 <= j < i ==> !occurs_at(s@, p@, j),
        ensures
            forall|j: int| 0 <= j <= last ==> !occurs_at(s@, p@, j),
        decreases last - i,
    {
        if seq_occurs_at(s, p, i) {
            return true;
        }
        if i == last {
            break;
        }
        i += 1;
    }
    false
}

/// Whether the string `s` ends with `p`.
pub fn str_ends_with(s: &str, p: &str) -> (r: bool)
    ensures
        r == ends_with(s@, p@),
{
    let sv = chars_of(s);
    let pv = chars_of(p);
    seq_ends_with(sv.as_slice(), pv.as_slice())
}

/// Whether the string `s` begins with `p`.
pub fn str_starts_with(s: &str, p: &str) -> (r: bool)
    ensures
        r == starts_with(s@, p@),
{
    let sv = chars_of(s);
    let pv = chars_of(p);
    seq_starts_with(sv.as_slice(), pv.as_slice())
}

/// Whether `p` occurs in `s`.
pub fn str_contains(s: &str, p: &str) -> (r: bool)
    ensures
        r == contains(s@, p@),
{
    let sv = chars_of(s);
    let pv = chars_of(p);
    seq_contains(sv.as_slice(), pv.as_slice())
}

/// Whether two strings hold the same characters.
pub fn str_eq(a: &str, b: &str) -> (r: bool)
    ensures
        r == (a@ == b@),
{
    let av = chars_of(a);
    let bv = chars_of(b);
    if av.len() != bv.len() {
        return false;
    }
    let r = seq_starts_with(av.as_slice(), bv.as_slice());
    assert(av@.subrange(0, bv@.len() as int) =~= av@);
    r
}

/// The ASCII lower-case form of `s` (`str::to_ascii_lowercase`).
pub fn to_ascii_lower(s: &str) -> (r: String)
    ensures
        r@ == ascii_lower(s@),
{
    let v = chars_of(s);
    let mut out = String::new();
    let mut i: usize = 0;
    while i < v.len()
        invariant
            v@ == s@,
            i <= v.len(),
            out@ == ascii_lower(s@.subrange(0, i as int)),
        decreases v.len() - i,
    {
        let c = v[i];
        let lc = if 'A' <= c && c <= 'Z' {
            let b: u8 = c as u8;
            (b + 32) as char
        } else {
            c
        };
        push_char(&mut out, lc);
        assert(ascii_lower(s@.subrange(0, i + 1)) == ascii_lower(s@.subrange(0, i as int)).push(
            ascii_lower_char(c),
        ));
        i += 1;
    }
    assert(s@.subrange(0, v@.len() as int) == s@);
    out
}


/// `s` with every occurrence of `pat` replaced by `rep` (`str::replace`).
pub fn str_replace(s: &str, pat: &str, rep: &str) -> (r: String)
    ensures
        r@ == replace(s@, pat@, rep@),
{
    let v = chars_of(s);
    let p = chars_of(pat);
    let mut out = String::new();
    let mut i: usize = 0;
    if p.len() == 0 {
        assert(out@ + interleave(s@.skip(0), rep@) == replace(s@, pat@, rep@)) by {
            assert(s@.skip(0) =~= s@);
        }
        while i < v.len()
            invariant
                v@ == s@,
                i <= v.len(),
                p@.len() == 0,
                out@ + interleave(s@.skip(i as int), rep@) == replace(s@, pat@, rep@),
            decreases v.len() - i,
        {
            let ghost t = s@.skip(i as int);
            assert(t.drop_first() =~= s@.skip(i + 1));
            assert(t[0] == v@[i as int]);
            assert(interleave(t, rep@) == rep@ + seq![t[0]] + interleave(t.drop_first(), rep@));
            let ghost prev = out@;
            push_str(&mut out, rep);
            push_char(&mut out, v[i]);
            assert(out@ + interleave(s@.skip(i + 1), rep@) =~= prev + interleave(t, rep@));
            i += 1;
        }
        assert(s@.skip(i as int) =~= Seq::<char>::empty());
        push_str(&mut out, rep);
        assert(out@ =~= replace(s@, pat@, rep@));
        return out;
    }
    assert(s@.skip(0) =~= s@);
    while i < v.len()
        invariant
            v@ == s@,
            p@ == pat@,
            p@.len() > 0,
            i <= v.len(),
            out@ + replace(s@.skip(i as int), pat@, rep@) == replace(s@, pat@, rep@),
        decreases v.len() - i,
    {
        let ghost t = s@.skip(i as int);
        let ghost prev = out@;
        if seq_occurs_at(v.as_slice(), p.as_slice(), i) {
            assert(t.subrange(0, pat@.len() as int) =~= s@.subrange(i as int, i + pat@.len()));
            assert(t.subrange(pat@.len() as int, t.len() as int) =~= s@.skip(i + p.len()));
            push_str(&mut out, rep);
            i += p.len();
            assert(out@ + replace(s@.skip(i as int), pat@, rep@) =~= prev + replace(t, pat@, rep@));
        } else {
            assert(t.drop_first() =~= s@.skip(i + 1));
            assert(t[0] == v@[i as int]);
            proof {
                if t.len() >= pat@.len() {
                    assert(t.subrange(0, pat@.len() as int) =~= s@.subrange(i as int, i + pat@.len()));
                } else {
                    assert(replace(t.drop_first(), pat@, rep@) == t.drop_first());
                    assert(t =~= seq![t[0]] + t.drop_first());
                }
            }
            push_char(&mut out, v[i]);
            i += 1;
            assert(out@ + replace(s@.skip(i as int), pat@, rep@) =~= prev + replace(t, pat@, rep@));
        }
    }
    assert(s@.skip(i as int) =~= Seq::<char>::empty());
    assert(out@ =~= replace(s@, pat@, rep@));
    out
}


/// The value of a string of ASCII decimal digits.
pub open spec fn digits_value(s: Seq<char>) -> nat
    decreases s.len(),
{
    if s.len() == 0 {
        0
    } else {
        digits_value(s.drop_last()) * 10 + ((s.last() as u32) - ('0' as u32)) as nat
    }
}

pub open spec fn all_digits(s: Seq<char>) -> bool {
    forall|i: int| 0 <= i < s.len() ==> '0' <= #[trigger] s[i] <= '9'
}

/// The number that `str::parse::<u64>` reads from `s`: an optional `+`, then
/// one or more ASCII digits, whose value fits in 64 bits.
pub open spec fn parsed_u64(s: Seq<char>) -> Option<u64> {
    let d = if s.len() > 0 && s[0] == '+' {
        s.drop_first()
    } else {
        s
    };
    if d.len() > 0 && all_digits(d) && digits_value(d) <= u64::MAX {
        Some(digits_value(d) as u64)
    } else {
        None
    }
}

/// `str::parse::<u64>`, with its error dropped.
pub fn parse_u64(s: &str) -> (r: Option<u64>)
    ensures
        r == parsed_u64(s@),
{
    let v = chars_of(s);
    let mut i: usize = 0;
    if v.len() > 0 && v[0] == '+' {
        i = 1;
    }
    let ghost d = if s@.len() > 0 && s@[0] == '+' {
        s@.drop_first()
    } else {
        s@
    };
    assert(d =~= s@.skip(i as int));
    if i >= v.len() {
        return None;
    }
    let start = i;
    let mut acc: u64 = 0;
    let mut overflow = false;
    assert(s@.subrange(start as int, start as int) =~= Seq::<char>::empty());
    while i < v.len()
        invariant
            v@ == s@,
            start <= i <= v.len(),
            d == s@.skip(start as int),
            d == (if s@.len() > 0 && s@[0] == '+' {
                s@.drop_first()
            } else {
                s@
            }),
            all_digits(s@.subrange(start as int, i as int)),
            !overflow ==> acc == digits_value(s@.subrange(start as int, i as int)),
            overflow ==> digits_value(s@.subrange(start as int, i as int)) > u64::MAX,
        decreases v.len() - i,
    {
        let c = v[i];
        if c < '0' || c > '9' {
            assert(d[i - start] == c);
            assert(!all_digits(d));
            assert(d == (if s@.len() > 0 && s@[0] == '+' {
                s@.drop_first()
            } else {
                s@
            }));
            return None;
        }
        let digit = (c as u32 - '0' as u32) as u64;
        let ghost prev = s@.subrange(start as int, i as int);
        let ghost next = s@.subrange(start as int, i + 1);
        assert(next.drop_last() =~= prev);
        assert(next.last() == c);
        assert(all_digits(next)) by {
            assert forall|k: int| 0 <= k < next.len() implies '0' <= #[trigger] next[k] <= '9' by {
                if k < prev.len() {
                    assert(next[k] == prev[k]);
                }
            }
        }
        if !overflow {
            if acc > (u64::MAX - digit) / 10 {
                overflow = true;
                assert(digits_value(next) > u64::MAX) by (nonlinear_arith)
                    requires
                        digits_value(next) == acc * 10 + digit,
                        acc > (u64::MAX - digit) / 10,
                        digit <= 9,
                ;
            } else {
                assert(acc * 10 + digit <= u64::MAX) by (nonlinear_arith)
                    requires
                        acc <= (u64::MAX - digit) / 10,
                        digit <= 9,
                ;
                acc = acc * 10 + digit;
            }
        } else {
            assert(digits_value(next) > u64::MAX) by (nonlinear_arith)
                requires
                    digits_value(next) == digits_value(prev) * 10 + digit,
                    digits_value(prev) > u64::MAX,
            ;
        }
        i += 1;
    }
    assert(s@.subrange(start as int, i as int) =~= d);
    if overflow {
        None
    } else {
        Some(acc)
    }
}


/// `s` without leading and trailing white space (`str::trim`).
pub fn str_trim(s: &str) -> (r: String)
    ensures
        r@ == trim(s@),
{
    let v = chars_of(s);
    let mut i: usize = 0;
    assert(s@.skip(0) =~= s@);
    while i < v.len() && is_whitespace(v[i])
        invariant
            v@ == s@,
            i <= v.len(),
            lead_ws(s@) == i + lead_ws(s@.skip(i as int)),
        decreases v.len() - i,
    {
        let ghost t = s@.skip(i as int);
        assert(t.drop_first() =~= s@.skip(i + 1));
        assert(t[0] == v@[i as int]);
        i += 1;
    }
    proof {
        let t = s@.skip(i as int);
        if i < v.len() {
            assert(t[0] == v@[i as int]);
        }
        assert(lead_ws(t) == 0);
    }
    let ghost t = trim_start(s@);
    assert(t =~= s@.skip(i as int));
    let mut j: usize = v.len();
    assert(t.take(t.len() as int) =~= t);
    while j > i && is_whitespace(v[j - 1])
        invariant
            v@ == s@,
            i <= j <= v.len(),
            t == s@.skip(i as int),
            trail_ws(t) == (v.len() - j) + trail_ws(t.take(j - i)),
        decreases j,
    {
        let ghost u = t.take(j - i);
        assert(u.drop_last() =~= t.take(j - 1 - i));
        assert(u.last() == v@[j - 1]);
        j -= 1;
    }
    proof {
        let u = t.take(j - i);
        if j > i {
            assert(u.last() == v@[j - 1]);
        }
        assert(trail_ws(u) == 0);
    }
    let mut out = String::new();
    let mut k: usize = i;
    while k < j
        invariant
            v@ == s@,
            i <= k <= j <= v.len(),
            out@ == s@.subrange(i as int, k as int),
        decreases j - k,
    {
        push_char(&mut out, v[k]);
        assert(s@.subrange(i as int, k + 1) =~= s@.subrange(i as int, k as int).push(v@[k as int]));
        k += 1;
    }
    assert(out@ =~= trim(s@));
    out
}

/// The order of strings: by their characters' code points, from the first,
/// a prefix before the longer string (the order of `str`'s `Ord`, which
/// compares UTF-8 bytes).
pub open spec fn chars_le(a: Seq<char>, b: Seq<char>) -> bool
    decreases a.len(),
{
    if a.len() == 0 {
        true
    } else if b.len() == 0 {
        false
    } else if a[0] != b[0] {
        (a[0] as int) < (b[0] as int)
    } else {
        chars_le(a.drop_first(), b.drop_first())
    }
}

pub proof fn lemma_chars_le_total(a: Seq<char>, b: Seq<char>)
    ensures
        chars_le(a, b) || chars_le(b, a),
    decreases a.len(),
{
    if a.len() > 0 && b.len() > 0 && a[0] == b[0] {
        lemma_chars_le_total(a.drop_first(), b.drop_first());
    } else if a.len() > 0 && b.len() > 0 {
        assert(a[0] as int != b[0] as int);
    }
}

pub proof fn lemma_chars_le_refl(a: Seq<char>)
    ensures
        chars_le(a, a),
    decreases a.len(),
{
    if a.len() > 0 {
        lemma_chars_le_refl(a.drop_first());
    }
}

pub proof fn lemma_chars_le_trans(a: Seq<char>, b: Seq<char>, c: Seq<char>)
    requires
        chars_le(a, b),
        chars_le(b, c),
    ensures
        chars_le(a, c),
    decreases a.len(),
{
    if a.len() > 0 && b.len() > 0 && c.len() > 0 && a[0] == b[0] && b[0] == c[0] {
        lemma_chars_le_trans(a.drop_first(), b.drop_first(), c.drop_first());
    }
}

proof fn lemma_chars_le_skip(a: Seq<char>, b: Seq<char>, i: int)
    requires
        0 <= i <= a.len(),
        i <= b.len(),
        forall|j: int| 0 <= j < i ==> a[j] == b[j],
    ensures
        chars_le(a, b) == chars_le(a.skip(i), b.skip(i)),
    decreases i,
{
    if i > 0 {
        assert(a.drop_first().skip(i - 1) =~= a.skip(i));
        assert(b.drop_first().skip(i - 1) =~= b.skip(i));
        lemma_chars_le_skip(a.drop_first(), b.drop_first(), i - 1);
    } else {
        assert(a.skip(0) =~= a);
        assert(b.skip(0) =~= b);
    }
}

/// Whether `a` comes before `b`, or equals it, in the order of strings.
pub fn str_le(a: &str, b: &str) -> (r: bool)
    ensures
        r == chars_le(a@, b@),
{
    let x = chars_of(a);
    let y = chars_of(b);
    let mut i: usize = 0;
    while i < x.len() && i < y.len()
        invariant
            i <= x@.len(),
            i <= y@.len(),
            x@ == a@,
            y@ == b@,
            forall|j: int| 0 <= j < i ==> x@[j] == y@[j],
        decreases x@.len() - i,
    {
        if x[i] != y[i] {
            proof {
                lemma_chars_le_skip(a@, b@, i as int);
                assert(a@.skip(i as int)[0] == x@[i as int]);
                assert(b@.skip(i as int)[0] == y@[i as int]);
            }
            return x[i] < y[i];
        }
        i += 1;
    }
    proof {
        lemma_chars_le_skip(a@, b@, i as int);
    }
    x.len() <= y.len()
}

proof fn lemma_dec_digits(n: nat)
    ensures
        dec(n).len() > 0,
        all_digits(dec(n)),
        digits_value(dec(n)) == n,
        dec(n)[0] != '+',
    decreases n,
{
    let d = n % 10;
    assert(('0' as u32) + d < 0xD800);
    assert(digit_of(d) as u32 == ('0' as u32) + d);
    assert('0' <= digit_of(d) <= '9');
    if n >= 10 {
        lemma_dec_digits(n / 10);
        let t = dec(n / 10);
        assert(dec(n) == t.push(digit_of(d)));
        assert(dec(n).drop_last() =~= t);
        assert(dec(n)[0] == t[0]);
        assert(dec(n).last() == digit_of(d));
        assert(((dec(n).last() as u32) - ('0' as u32)) as nat == d);
        assert((n / 10) * 10 + d == n) by {
            vstd::arithmetic::div_mod::lemma_fundamental_div_mod(n as int, 10);
        }
        assert(digits_value(dec(n)) == digits_value(t) * 10 + d);
        assert forall|i: int| 0 <= i < dec(n).len() implies '0' <= #[trigger] dec(n)[i] <= '9' by {
            if i < t.len() {
                assert(dec(n)[i] == t[i]);
            }
        }
    } else {
        assert(d == n);
        assert(dec(n).drop_last() =~= Seq::<char>::empty());
        assert(dec(n).last() == digit_of(d));
        assert(digits_value(dec(n)) == digits_value(Seq::<char>::empty()) * 10 + d);
    }
}

/// Reading the decimal notation of a number gives the number back.
pub proof fn lemma_parse_dec(n: u64)
    ensures
        parsed_u64(dec(n as nat)) == Some(n),
{
    lemma_dec_digits(n as nat);
}

} // verus!
