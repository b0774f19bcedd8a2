//! Character-level helpers shared by the query protocol and the router.

use vstd::prelude::*;

verus! {

/// The characters that carry the Unicode `White_Space` property, which is
/// what `char::is_whitespace` tests.
pub open spec fn is_ws(c: char) -> bool {
    let u = c as u32;
    ||| (0x09 <= u && u <= 0x0d)
    ||| u == 0x20
    ||| u == 0x85
    ||| u == 0xa0
    ||| u == 0x1680
    ||| (0x2000 <= u && u <= 0x200a)
    ||| u == 0x2028
    ||| u == 0x2029
    ||| u == 0x202f
    ||| u == 0x205f
    ||| u == 0x3000
}

/// Tests whether `c` is a Unicode white-space character.
pub fn is_whitespace(c: char) -> (r: bool)
    ensures
        r == is_ws(c),
{
    let u = c as u32;
    (0x09 <= u && u <= 0x0d) || u == 0x20 || u == 0x85 || u == 0xa0 || u == 0x1680
        || (0x2000 <= u && u <= 0x200a) || u == 0x2028 || u == 0x2029 || u == 0x202f
        || u == 0x205f || u == 0x3000
}


/// The characters of `s`, in order: `str::chars` collected into a vector.
/// Trusted: the contract restates the documentation of `str::chars`, which
/// yields the Unicode scalar values of the string one by one.
#[verifier::external_body]
pub(crate) fn chars_of(s: &str) -> (r: Vec<char>)
    ensures
        r@ == s@,
{
    s.chars().collect()
}

/// The string made of the characters of `v`: `String::from_iter` over chars.
/// Trusted: the contract restates the documentation of `FromIterator<char>`
/// for `String`, which appends each character in order.
#[verifier::external_body]
pub(crate) fn string_of(v: &[char]) -> (r: String)
    ensures
        r@ == v@,
{
    v.iter().collect()
}


/// `c` is one of the characters that a strip removes: white space when
/// `quote` is false, the double quote `"` when it is true.
pub open spec fn strippable(c: char, quote: bool) -> bool {
    if quote {
        c == '"'
    } else {
        is_ws(c)
    }
}

/// The number of strippable characters at the start of `s`.
pub open spec fn lead_len(s: Seq<char>, quote: bool) -> nat
    decreases s.len(),
{
    if s.len() > 0 && strippable(s[0], quote) {
        1 + lead_len(s.drop_first(), quote)
    } else {
        0
    }
}

/// The number of strippable characters at the end of `s`.
pub open spec fn trail_len(s: Seq<char>, quote: bool) -> nat
    decreases s.len(),
{
    if s.len() > 0 && strippable(s.last(), quote) {
        1 + trail_len(s.drop_last(), quote)
    } else {
        0
    }
}

/// `s` without its strippable characters at both ends (`str::trim` for white
/// space, `trim_start_matches` then `trim_end_matches` for the quote).
pub open spec fn strip(s: Seq<char>, quote: bool) -> Seq<char> {
    let a = s.skip(lead_len(s, quote) as int);
    a.take(a.len() - trail_len(a, quote))
}

proof fn lemma_lead_stops(s: Seq<char>, quote: bool)
    ensures
        lead_len(s, quote) <= s.len(),
        lead_len(s, quote) < s.len() ==> !strippable(s[lead_len(s, quote) as int], quote),
    decreases s.len(),
{
    if s.len() > 0 && strippable(s[0], quote) {
        lemma_lead_stops(s.drop_first(), quote);
        if lead_len(s, quote) < s.len() {
            assert(s[lead_len(s, quote) as int] == s.drop_first()[lead_len(s.drop_first(), quote) as int]);
        }
    }
}

proof fn lemma_trail_stops(s: Seq<char>, quote: bool)
    ensures
        trail_len(s, quote) <= s.len(),
        trail_len(s, quote) < s.len() ==> !strippable(s[s.len() - 1 - trail_len(s, quote)], quote),
    decreases s.len(),
{
    if s.len() > 0 && strippable(s.last(), quote) {
        lemma_trail_stops(s.drop_last(), quote);
        if trail_len(s, quote) < s.len() {
            let t = s.drop_last();
            assert(s[s.len() - 1 - trail_len(s, quote)] == t[t.len() - 1 - trail_len(t, quote)]);
        }
    }
}

/// Law: what a strip leaves neither starts nor ends with a strippable
/// character.
pub proof fn law_strip_ends(s: Seq<char>, quote: bool)
    ensures
        strip(s, quote).len() > 0 ==> !strippable(strip(s, quote)[0], quote)
            && !strippable(strip(s, quote).last(), quote),
{
    lemma_lead_stops(s, quote);
    let a = s.skip(lead_len(s, quote) as int);
    lemma_trail_stops(a, quote);
    let r = strip(s, quote);
    if r.len() > 0 {
        assert(r[0] == a[0]);
        assert(a[0] == s[lead_len(s, quote) as int]);
        assert(r.last() == a[a.len() - 1 - trail_len(a, quote)]);
    }
}

/// A string that neither starts nor ends with a strippable character is
/// left as it is by a strip.
pub proof fn lemma_strip_unchanged(s: Seq<char>, quote: bool)
    requires
        s.len() > 0 ==> !strippable(s[0], quote) && !strippable(s.last(), quote),
    ensures
        strip(s, quote) == s,
{
    assert(lead_len(s, quote) == 0);
    assert(s.skip(0) =~= s);
    assert(trail_len(s, quote) == 0);
    assert(s.take(s.len() as int) =~= s);
}

fn strippable_exec(c: char, quote: bool) -> (r: bool)
    ensures
        r == strippable(c, quote),
{
    if quote {
        c == '"'
    } else {
        is_whitespace(c)
    }
}

/// The number of strippable characters at the start of `cs[lo..hi]`.
fn lead_count(cs: &Vec<char>, lo: usize, hi: usize, quote: bool) -> (k: usize)
    requires
        lo <= hi <= cs@.len(),
    ensures
        k == lead_len(cs@.subrange(lo as int, hi as int), quote),
        lo + k <= hi,
{
    let mut i = lo;
    let ghost s = cs@.subrange(lo as int, hi as int);
    assert(s.skip(0) =~= s);
    while i < hi && strippable_exec(cs[i], quote)
        invariant
            lo <= i <= hi <= cs@.len(),
            s == cs@.subrange(lo as int, hi as int),
            lead_len(s, quote) == (i - lo) + lead_len(s.skip(i - lo), quote),
        decreases hi - i,
    {
        assert(s.skip(i - lo).drop_first() =~= s.skip(i - lo + 1));
        assert(s.skip(i - lo)[0] == cs@[i as int]);
        i = i + 1;
    }
    if i < hi {
        assert(s.skip(i - lo)[0] == cs@[i as int]);
    } else {
        assert(s.skip(i - lo) =~= Seq::<char>::empty());
    }
    i - lo
}

/// The number of strippable characters at the end of `cs[lo..hi]`.
fn trail_count(cs: &Vec<char>, lo: usize, hi: usize, quote: bool) -> (k: usize)
    requires
        lo <= hi <= cs@.len(),
    ensures
        k == trail_len(cs@.subrange(lo as int, hi as int), quote),
        lo + k <= hi,
{
    let mut j = hi;
    let ghost s = cs@.subrange(lo as int, hi as int);
    assert(s.take(s.len() as int) =~= s);
    while j > lo && strippable_exec(cs[j - 1], quote)
        invariant
            lo <= j <= hi <= cs@.len(),
            s == cs@.subrange(lo as int, hi as int),
            trail_len(s, quote) == (hi - j) + trail_len(s.take(j - lo), quote),
        decreases j - lo,
    {
        assert(s.take(j - lo).drop_last() =~= s.take(j - lo - 1));
        assert(s.take(j - lo).last() == cs@[j - 1]);
        j = j - 1;
    }
    if j > lo {
        assert(s.take(j - lo).last() == cs@[j - 1]);
    } else {
        assert(s.take(j - lo) =~= Seq::<char>::empty());
    }
    hi - j
}

/// The characters `cs[lo..hi]` as a new vector.
pub fn sub_chars(cs: &Vec<char>, lo: usize, hi: usize) -> (r: Vec<char>)
    requires
        lo <= hi <= cs@.len(),
    ensures
        r@ == cs@.subrange(lo as int, hi as int),
{
    let mut r: Vec<char> = Vec::new();
    let mut i = lo;
    while i < hi
        invariant
            lo <= i <= hi <= cs@.len(),
            r@ == cs@.subrange(lo as int, i as int),
        decreases hi - i,
    {
        r.push(cs[i]);
        i = i + 1;
        assert(r@ =~= cs@.subrange(lo as int, i as int));
    }
    r
}

/// The bounds `(a, b)` of `strip(cs[lo..hi], quote)` inside `cs`.
pub fn strip_bounds(cs: &Vec<char>, lo: usize, hi: usize, quote: bool) -> (r: (usize, usize))
    requires
        lo <= hi <= cs@.len(),
    ensures
        lo <= r.0 <= r.1 <= hi,
        cs@.subrange(r.0 as int, r.1 as int) == strip(cs@.subrange(lo as int, hi as int), quote),
{
    let k = lead_count(cs, lo, hi, quote);
    let a = lo + k;
    let t = trail_count(cs, a, hi, quote);
    let b = hi - t;
    proof {
        let s = cs@.subrange(lo as int, hi as int);
        assert(s.skip(k as int) =~= cs@.subrange(a as int, hi as int));
        let x = cs@.subrange(a as int, hi as int);
        assert(x.take(x.len() - t) =~= cs@.subrange(a as int, b as int));
    }
    (a, b)
}


/// Whether `a` and `b` hold the same characters.
pub fn str_eq(a: &str, b: &str) -> (r: bool)
    ensures
        r == (a@ == b@),
{
    let x = chars_of(a);
    let y = chars_of(b);
    if x.len() != y.len() {
        return false;
    }
    let mut i: usize = 0;
    while i < x.len()
        invariant
            x@ == a@,
            y@ == b@,
            x@.len() == y@.len(),
            i <= x@.len(),
            forall|j: int| 0 <= j < i ==> x@[j] == y@[j],
        decreases x@.len() - i,
    {
        if x[i] != y[i] {
            assert(x@[i as int] != y@[i as int]);
            return false;
        }
        i = i + 1;
    }
    assert(x@ =~= y@);
    true
}

/// `c` is an ASCII decimal digit.
pub open spec fn is_digit(c: char) -> bool {
    '0' <= c && c <= '9'
}

/// Every character of `s` is an ASCII decimal digit.
pub open spec fn all_digits(s: Seq<char>) -> bool {
    forall|i: int| 0 <= i < s.len() ==> is_digit(#[trigger] s[i])
}

/// The number that the decimal digits `s` denote.
pub open spec fn digits_value(s: Seq<char>) -> nat
    decreases s.len(),
{
    if s.len() == 0 {
        0
    } else {
        digits_value(s.drop_last()) * 10 + ((s.last() as u32) - ('0' as u32)) as nat
    }
}

/// The integer that `s` spells in decimal, with an optional leading `+` or
/// (when `signed`) `-`, as `str::parse` reads it before range checking.
pub open spec fn decimal_value(s: Seq<char>, signed: bool) -> Option<int> {
    if s.len() == 0 {
        None
    } else {
        let neg = signed && s[0] == '-';
        let d = if s[0] == '+' || neg {
            s.drop_first()
        } else {
            s
        };
        if d.len() == 0 || !all_digits(d) {
            None
        } else if neg {
            Some(-(digits_value(d) as int))
        } else {
            Some(digits_value(d) as int)
        }
    }
}

/// What `str::parse::<i64>` gives for `s`.
pub open spec fn parsed_i64(s: Seq<char>) -> Option<i64> {
    match decimal_value(s, true) {
        Some(v) => if i64::MIN <= v && v <= i64::MAX {
            Some(v as i64)
        } else {
            None
        },
        None => None,
    }
}

/// What `str::parse::<u64>` gives for `s`.
pub open spec fn parsed_u64(s: Seq<char>) -> Option<u64> {
    match decimal_value(s, false) {
        Some(v) => if 0 <= v && v <= u64::MAX {
            Some(v as u64)
        } else {
            None
        },
        None => None,
    }
}

/// Reads the digits `cs[from..]`: `Some(v)` with `v` their value when they
/// are all digits, there is at least one and `v <= limit`; `None` otherwise,
/// and then either a non-digit occurs, there are none, or the value passes
/// `limit`.
fn read_digits(cs: &Vec<char>, from: usize, limit: u64) -> (r: Option<u64>)
    requires
        from <= cs@.len(),
    ensures
        ({
            let d = cs@.skip(from as int);
            match r {
                Some(v) => d.len() > 0 && all_digits(d) && v == digits_value(d) && v <= limit,
                None => d.len() == 0 || !all_digits(d) || digits_value(d) > limit,
            }
        }),
{
    let ghost d = cs@.skip(from as int);
    let n = cs.len();
    if from == n {
        return None;
    }
    let mut acc: u128 = 0;
    let mut over = false;
    let mut i = from;
    assert(d.take(0) =~= Seq::<char>::empty());
    while i < n
        invariant
            from <= i <= n == cs@.len(),
            d == cs@.skip(from as int),
            all_digits(d.take(i - from)),
            !over ==> acc == digits_value(d.take(i - from)) && acc <= limit,
            over ==> digits_value(d.take(i - from)) > limit,
        decreases n - i,
    {
        let c = cs[i];
        if !('0' <= c && c <= '9') {
            assert(d[i - from] == c);
            return None;
        }
        let ghost t = d.take(i - from + 1);
        assert(t.drop_last() =~= d.take(i - from));
        assert(t.last() == c);
        assert forall|j: int| 0 <= j < t.len() implies is_digit(#[trigger] t[j]) by {
            if j < t.len() - 1 {
                assert(t[j] == d.take(i - from)[j]);
            }
        }
        if !over {
            let dig = (c as u32 - '0' as u32) as u128;
            acc = acc * 10 + dig;
            if acc > limit as u128 {
                over = true;
            }
        }
        i = i + 1;
    }
    assert(d.take(n - from) =~= d);
    if over {
        None
    } else {
        Some(acc as u64)
    }
}

/// `str::parse::<i64>`: an optional sign then decimal digits, in range.
pub fn parse_i64(s: &str) -> (r: Option<i64>)
    ensures
        r == parsed_i64(s@),
{
    let cs = chars_of(s);
    if cs.len() == 0 {
        return None;
    }
    let neg = cs[0] == '-';
    let from: usize = if cs[0] == '+' || neg { 1 } else { 0 };
    assert(from == 0 ==> cs@.skip(0) =~= cs@);
    assert(from == 1 ==> cs@.skip(1) =~= cs@.drop_first());
    let limit: u64 = if neg { 0x8000_0000_0000_0000 } else { 0x7fff_ffff_ffff_ffff };
    match read_digits(&cs, from, limit) {
        Some(v) => {
            if neg {
                Some((0i128 - v as i128) as i64)
            } else {
                Some(v as i64)
            }
        },
        None => None,
    }
}

/// `str::parse::<u64>`: an optional `+` then decimal digits, in range.
pub fn parse_u64(s: &str) -> (r: Option<u64>)
    ensures
        r == parsed_u64(s@),
{
    let cs = chars_of(s);
    if cs.len() == 0 {
        return None;
    }
    let from: usize = if cs[0] == '+' { 1 } else { 0 };
    assert(from == 0 ==> cs@.skip(0) =~= cs@);
    assert(from == 1 ==> cs@.skip(1) =~= cs@.drop_first());
    read_digits(&cs, from, 0xffff_ffff_ffff_ffff)
}


/// A copy of every string of `v`, in order.
pub fn copy_strings(v: &Vec<String>) -> (r: Vec<String>)
    ensures
        r@ == v@,
{
    let mut r: Vec<String> = Vec::new();
    let mut i: usize = 0;
    while i < v.len()
        invariant
            i <= v@.len(),
            r@ == v@.take(i as int),
        decreases v@.len() - i,
    {
        r.push(v[i].clone());
        i = i + 1;
        assert(r@ =~= v@.take(i as int));
    }
    assert(v@.take(v@.len() as int) =~= v@);
    r
}


/// The ASCII digit for `d < 10`.
pub open spec fn digit_char(d: nat) -> char {
    (48 + d) as char
}

/// The decimal digits of `n`, most significant first, without leading zeros.
pub open spec fn digits_of(n: nat) -> Seq<char>
    decreases n,
{
    if n < 10 {
        seq![digit_char(n)]
    } else {
        digits_of(n / 10).push(digit_char(n % 10))
    }
}

/// `v` written in decimal, with a leading `-` when negative
/// (`i64::to_string`).
pub open spec fn decimal_string(v: int) -> Seq<char> {
    if v < 0 {
        seq!['-'] + digits_of((-v) as nat)
    } else {
        digits_of(v as nat)
    }
}

fn digit_exec(d: u128) -> (c: char)
    requires
        d < 10,
    ensures
        c == digit_char(d as nat),
{
    let u: u8 = 48 + d as u8;
    u as char
}

/// `v` written in decimal (`i64::to_string`).
pub fn decimal(v: i64) -> (r: String)
    ensures
        r@ == decimal_string(v as int),
{
    let mut m: u128 = if v < 0 { (0i128 - v as i128) as u128 } else { v as u128 };
    let ghost orig = m as nat;
    let mut out: Vec<char> = Vec::new();
    assert(digits_of(orig) =~= digits_of(m as nat) + out@);
    while m >= 10
        invariant
            digits_of(orig) == digits_of(m as nat) + out@,
        decreases m,
    {
        let d = m % 10;
        let c = digit_exec(d);
        out.insert(0, c);
        let ghost prev = m as nat;
        m = m / 10;
        assert(digits_of(prev) == digits_of(m as nat).push(c));
        assert(digits_of(orig) =~= digits_of(m as nat) + out@);
    }
    let c = digit_exec(m);
    out.insert(0, c);
    assert(digits_of(orig) =~= out@);
    if v < 0 {
        out.insert(0, '-');
        assert(out@ =~= seq!['-'] + digits_of(orig));
    }
    string_of(out.as_slice())
}


proof fn lemma_digit_char(k: nat)
    requires
        k < 10,
    ensures
        (digit_char(k) as u32) == 48 + k,
        is_digit(digit_char(k)),
{
    assert((digit_char(k) as u32) == 48 + k);
}

proof fn lemma_digits_of(n: nat)
    ensures
        digits_of(n).len() > 0,
        all_digits(digits_of(n)),
        digits_value(digits_of(n)) == n,
        is_digit(digits_of(n)[0]),
    decreases n,
{
    lemma_digit_char(n % 10);
    if n < 10 {
        assert(digits_of(n).drop_last() =~= Seq::<char>::empty());
    }
    if n >= 10 {
        lemma_digits_of(n / 10);
        assert((n / 10) * 10 + n % 10 == n);
        let d = digits_of(n);
        assert(d.drop_last() =~= digits_of(n / 10));
        assert(d.last() == digit_char(n % 10));
        assert forall|i: int| 0 <= i < d.len() implies is_digit(#[trigger] d[i]) by {
            if i < d.len() - 1 {
                assert(d[i] == digits_of(n / 10)[i]);
            }
        }
        assert(d[0] == digits_of(n / 10)[0]);
        assert(('0' as u32) == 48);
        assert(digits_value(d) == digits_value(d.drop_last()) * 10 + ((d.last() as u32) - ('0' as u32)) as nat);
        assert(digits_value(d.drop_last()) == n / 10);
    } else {
        assert(('0' as u32) == 48);
        let d = digits_of(n);
        assert(digits_value(d) == digits_value(d.drop_last()) * 10 + ((d.last() as u32) - ('0' as u32)) as nat);
    }
}

/// Law: an `i64` written in decimal reads back as itself, so a chat id used as
/// an output channel names the same chat in `GET chat:id`.
pub proof fn law_decimal_parses_back(v: i64)
    ensures
        parsed_i64(decimal_string(v as int)) == Some(v),
{
    if v < 0 {
        let n = (-(v as int)) as nat;
        lemma_digits_of(n);
        let s = decimal_string(v as int);
        assert(s[0] == '-');
        assert(s.drop_first() =~= digits_of(n));
    } else {
        lemma_digits_of(v as nat);
    }
}


/// `n` occurs in `h` as a run of consecutive characters.
pub open spec fn has_infix(h: Seq<char>, n: Seq<char>) -> bool {
    exists|i: int| 0 <= i && i + n.len() <= h.len() && #[trigger] h.subrange(i, i + n.len()) == n
}

/// Whether `needle` occurs in `hay` (`str::contains` with a string pattern).
pub fn contains_str(hay: &str, needle: &str) -> (r: bool)
    ensures
        r == has_infix(hay@, needle@),
{
    let h = chars_of(hay);
    let n = chars_of(needle);
    if n.len() > h.len() {
        return false;
    }
    if n.len() == 0 {
        assert(h@.subrange(0, 0int + n@.len()) =~= n@);
        return true;
    }
    let last = h.len() - n.len();
    let mut i: usize = 0;
    while i <= last
        invariant
            h@ == hay@,
            n@ == needle@,
            0 < n@.len() <= h@.len(),
            h@.len() <= usize::MAX,
            last == h@.len() - n@.len(),
            i <= last + 1,
            forall|j: int| 0 <= j < i ==> #[trigger] h@.subrange(j, j + n@.len()) != n@,
        decreases last + 1 - i,
    {
        let mut k: usize = 0;
        while k < n.len() && h[i + k] == n[k]
            invariant
                i <= last,
                h@.len() <= usize::MAX,
                0 < n@.len() <= h@.len(),
                last == h@.len() - n@.len(),
                k <= n@.len(),
                forall|m: int| 0 <= m < k ==> h@[i + m] == n@[m],
            decreases n@.len() - k,
        {
            k = k + 1;
        }
        if k == n.len() {
            assert(h@.subrange(i as int, i + n@.len()) =~= n@);
            return true;
        }
        assert(h@.subrange(i as int, i + n@.len())[k as int] != n@[k as int]);
        i = i + 1;
    }
    proof {
        if has_infix(hay@, needle@) {
            let j = choose|j: int| 0 <= j && j + n@.len() <= h@.len() && #[trigger] h@.subrange(j, j + n@.len()) == n@;
            assert(j < i);
        }
    }
    false
}

/// What `str::to_lowercase` gives for `s`.
pub uninterp spec fn lowercase(s: Seq<char>) -> Seq<char>;

/// `s` in lower case, with `str::to_lowercase`. Trusted: the result depends
/// on `s` alone (the Unicode case tables of the standard library); what it
/// is, is left to the name `lowercase`.
#[verifier::external_body]
pub(crate) fn to_lowercase(s: &str) -> (r: String)
    ensures
        r@ == lowercase(s@),
{
    s.to_lowercase()
}

} // verus!
