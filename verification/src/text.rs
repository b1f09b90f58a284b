use vstd::prelude::*;
use vstd::string::*;

verus! {

/// The characters of `s`, in order.
pub fn chars_of(s: &str) -> (res: Vec<char>)
    ensures
        res@ == s@,
{
    let mut res: Vec<char> = Vec::new();
    for c in it: s.chars()
        invariant
            res@ == it.seq().take(it.index() as int),
            it.seq() == s@,
    {
        res.push(c);
    }
    res
}

/// Byte-wise (code point) lexicographic order of two strings: `a` comes no
/// later than `b`.
pub open spec fn str_le(a: Seq<char>, b: Seq<char>) -> bool
    decreases a.len(),
{
    if a.len() == 0 {
        true
    } else if b.len() == 0 {
        false
    } else if a[0] != b[0] {
        (a[0] as u32) < (b[0] as u32)
    } else {
        str_le(a.drop_first(), b.drop_first())
    }
}

pub proof fn lemma_str_le_total(a: Seq<char>, b: Seq<char>)
    ensures
        str_le(a, b) || str_le(b, a),
    decreases a.len(),
{
    if a.len() > 0 && b.len() > 0 {
        if a[0] == b[0] {
            lemma_str_le_total(a.drop_first(), b.drop_first());
        } else {
            vstd::utf8::char_u32_cast(a[0], a[0] as u32);
            vstd::utf8::char_u32_cast(b[0], b[0] as u32);
        }
    }
}

pub proof fn lemma_str_le_trans(a: Seq<char>, b: Seq<char>, c: Seq<char>)
    requires
        str_le(a, b),
        str_le(b, c),
    ensures
        str_le(a, c),
    decreases a.len(),
{
    if a.len() > 0 && b.len() > 0 && c.len() > 0 && a[0] == b[0] && b[0] == c[0] {
        lemma_str_le_trans(a.drop_first(), b.drop_first(), c.drop_first());
    }
}

/// Whether `a` comes no later than `b` in code point order.
pub fn str_le_exec(a: &str, b: &str) -> (res: bool)
    ensures
        res == str_le(a@, b@),
{
    let av = chars_of(a);
    let bv = chars_of(b);
    let mut i: usize = 0;
    assert(a@.skip(0) =~= a@);
    assert(b@.skip(0) =~= b@);
    while i < av.len() && i < bv.len() && av[i] == bv[i]
        invariant
            av@ == a@,
            bv@ == b@,
            i <= av.len(),
            i <= bv.len(),
            str_le(a@, b@) == str_le(a@.skip(i as int), b@.skip(i as int)),
        decreases av.len() - i,
    {
        proof {
            let x = a@.skip(i as int);
            let y = b@.skip(i as int);
            assert(x.drop_first() =~= a@.skip(i + 1));
            assert(y.drop_first() =~= b@.skip(i + 1));
        }
        i += 1;
    }
    if i == av.len() {
        true
    } else if i == bv.len() {
        false
    } else {
        (av[i] as u32) < (bv[i] as u32)
    }
}

/// Whether two strings hold the same characters.
pub fn str_eq(a: &str, b: &str) -> (res: bool)
    ensures
        res == (a@ == b@),
{
    let av = chars_of(a);
    let bv = chars_of(b);
    if av.len() != bv.len() {
        return false;
    }
    let mut i: usize = 0;
    while i < av.len()
        invariant
            av@ == a@,
            bv@ == b@,
            av.len() == bv.len(),
            i <= av.len(),
            forall|j: int| 0 <= j < i ==> a@[j] == b@[j],
        decreases av.len() - i,
    {
        if av[i] != bv[i] {
            return false;
        }
        i += 1;
    }
    assert(a@ =~= b@);
    true
}

/// ASCII upper-case letters folded to lower case; every other character is
/// its own fold.
pub open spec fn ascii_fold(c: char) -> int {
    if 'A' <= c <= 'Z' {
        (c as u32) + 32
    } else {
        c as u32 as int
    }
}

fn ascii_fold_exec(c: char) -> (res: u32)
    ensures
        res as int == ascii_fold(c),
{
    if 'A' <= c && c <= 'Z' {
        (c as u32) + 32
    } else {
        c as u32
    }
}

/// SQL `LIKE`: `%` in the pattern matches any run of characters, `_` any one
/// character, and every other character matches itself with ASCII letters
/// compared without case.
pub open spec fn like_match(s: Seq<char>, p: Seq<char>) -> bool
    decreases p.len() + s.len(),
{
    if p.len() == 0 {
        s.len() == 0
    } else if p[0] == '%' {
        like_match(s, p.drop_first()) || (s.len() > 0 && like_match(s.drop_first(), p))
    } else if s.len() == 0 {
        false
    } else if p[0] == '_' || ascii_fold(p[0]) == ascii_fold(s[0]) {
        like_match(s.drop_first(), p.drop_first())
    } else {
        false
    }
}

/// The pattern `'%' || filter || '%'`.
pub open spec fn contains_pattern(filter: Seq<char>) -> Seq<char> {
    seq!['%'] + filter + seq!['%']
}

/// `name LIKE '%' || filter || '%'`.
pub open spec fn like_filter(name: Seq<char>, filter: Seq<char>) -> bool {
    like_match(name, contains_pattern(filter))
}

/// Whether `s` matches the `LIKE` pattern `p`.
pub fn like_match_exec(s: &Vec<char>, p: &Vec<char>) -> (res: bool)
    ensures
        res == like_match(s@, p@),
{
    let n = s.len();
    let m = p.len();
    // next[j] == like_match(s@.skip(i + 1), p@.skip(j)) for the row below the current one
    let mut next: Vec<bool> = Vec::new();
    let mut j: usize = 0;
    while j < m
        invariant
            j <= m,
            next.len() == j,
            m == p.len(),
            n == s.len(),
            forall|k: int| 0 <= k < j ==> next@[k] == false,
        decreases m - j,
    {
        next.push(false);
        j += 1;
    }
    next.push(true);
    // The row for i == n: the empty rest of s.
    let mut row: Vec<bool> = next.clone();
    let mut k: usize = m;
    while k > 0
        invariant
            k <= m,
            row.len() == m + 1,
            m == p.len(),
            n == s.len(),
            forall|q: int| k <= q <= m ==> row@[q] == like_match(s@.skip(n as int), p@.skip(q)),
        decreases k,
    {
        k -= 1;
        proof {
            assert(p@.skip(k as int).drop_first() =~= p@.skip(k + 1));
            assert(s@.skip(n as int).len() == 0);
        }
        let v = if p[k] == '%' {
            row[k + 1]
        } else {
            false
        };
        row.set(k, v);
    }
    let mut i: usize = n;
    while i > 0
        invariant
            i <= n,
            row.len() == m + 1,
            m == p.len(),
            n == s.len(),
            forall|q: int| 0 <= q <= m ==> row@[q] == like_match(s@.skip(i as int), p@.skip(q)),
        decreases i,
    {
        i -= 1;
        let below = row.clone();
        let mut cur: Vec<bool> = row.clone();
        cur.set(m, false);
        proof {
            assert(p@.skip(m as int).len() == 0);
        }
        let mut k: usize = m;
        while k > 0
            invariant
                k <= m,
                i < n,
                cur.len() == m + 1,
                below.len() == m + 1,
                m == p.len(),
                n == s.len(),
                forall|q: int| 0 <= q <= m ==> below@[q] == like_match(s@.skip(i + 1), p@.skip(q)),
                forall|q: int| k <= q <= m ==> cur@[q] == like_match(s@.skip(i as int), p@.skip(q)),
            decreases k,
        {
            k -= 1;
            proof {
                assert(p@.skip(k as int).drop_first() =~= p@.skip(k + 1));
                assert(s@.skip(i as int).drop_first() =~= s@.skip(i + 1));
            }
            let pc = p[k];
            let v = if pc == '%' {
                cur[k + 1] || below[k]
            } else if pc == '_' || ascii_fold_exec(pc) == ascii_fold_exec(s[i]) {
                below[k + 1]
            } else {
                false
            };
            cur.set(k, v);
        }
        row = cur;
    }
    proof {
        assert(s@.skip(0) =~= s@);
        assert(p@.skip(0) =~= p@);
    }
    row[0]
}

/// Whether `name LIKE '%' || filter || '%'` holds.
pub fn like_filter_exec(name: &str, filter: &str) -> (res: bool)
    ensures
        res == like_filter(name@, filter@),
{
    let mut pat: Vec<char> = Vec::new();
    pat.push('%');
    let f = chars_of(filter);
    let mut i: usize = 0;
    while i < f.len()
        invariant
            i <= f.len(),
            f@ == filter@,
            pat@ == seq!['%'] + filter@.take(i as int),
        decreases f.len() - i,
    {
        pat.push(f[i]);
        proof {
            assert(filter@.take(i + 1) =~= filter@.take(i as int).push(filter@[i as int]));
        }
        i += 1;
    }
    pat.push('%');
    proof {
        assert(filter@.take(f.len() as int) =~= filter@);
        assert(pat@ =~= contains_pattern(filter@));
    }
    let s = chars_of(name);
    like_match_exec(&s, &pat)
}

/// Appends one character to a string: `String::push`, which std documents as
/// appending the character to the end of the string. Trusted: the contract
/// says the string's characters afterwards are the old ones followed by `c`.
#[verifier::external_body]
pub(crate) fn push_char(s: &mut String, c: char)
    ensures
        final(s)@ == old(s)@.push(c),
{
    s.push(c)
}

/// The decimal digit for `d < 10`.
pub open spec fn digit_char(d: int) -> char {
    if d == 0 { '0' }
    else if d == 1 { '1' }
    else if d == 2 { '2' }
    else if d == 3 { '3' }
    else if d == 4 { '4' }
    else if d == 5 { '5' }
    else if d == 6 { '6' }
    else if d == 7 { '7' }
    else if d == 8 { '8' }
    else { '9' }
}

/// The decimal notation of `n`, without leading zeros.
pub open spec fn dec(n: nat) -> Seq<char>
    decreases n,
{
    if n < 10 {
        seq![digit_char(n as int)]
    } else {
        dec(n / 10).push(digit_char((n % 10) as int))
    }
}

/// The decimal notation of a signed number, with `-` before a negative one.
pub open spec fn dec_i(n: int) -> Seq<char> {
    if n < 0 {
        seq!['-'] + dec((-n) as nat)
    } else {
        dec(n as nat)
    }
}

fn digit_exec(d: u64) -> (c: char)
    requires
        d < 10,
    ensures
        c == digit_char(d as int),
{
    if d == 0 { '0' }
    else if d == 1 { '1' }
    else if d == 2 { '2' }
    else if d == 3 { '3' }
    else if d == 4 { '4' }
    else if d == 5 { '5' }
    else if d == 6 { '6' }
    else if d == 7 { '7' }
    else if d == 8 { '8' }
    else { '9' }
}

/// Appends the decimal notation of `n`.
pub fn push_dec(s: &mut String, n: u128)
    ensures
        final(s)@ == old(s)@ + dec(n as nat),
    decreases n,
{
    if n < 10 {
        push_char(s, digit_exec(n as u64));
        assert(old(s)@.push(digit_char(n as int)) =~= old(s)@ + dec(n as nat));
    } else {
        push_dec(s, n / 10);
        push_char(s, digit_exec((n % 10) as u64));
        assert((old(s)@ + dec((n / 10) as nat)).push(digit_char((n % 10) as int)) =~= old(s)@ + dec(n as nat));
    }
}

/// Appends the decimal notation of a signed number.
pub fn push_dec_i64(s: &mut String, n: i64)
    ensures
        final(s)@ == old(s)@ + dec_i(n as int),
{
    if n < 0 {
        push_char(s, '-');
        let m: u128 = if n == i64::MIN {
            0x8000_0000_0000_0000u128
        } else {
            (-n) as u128
        };
        push_dec(s, m);
        assert(old(s)@.push('-') + dec(m as nat) =~= old(s)@ + dec_i(n as int));
    } else {
        push_dec(s, n as u128);
    }
}

/// Appends `true` or `false`.
pub fn push_bool(s: &mut String, b: bool)
    ensures
        final(s)@ == old(s)@ + bool_text(b),
{
    if b {
        s.append("true");
    } else {
        s.append("false");
    }
}

pub open spec fn bool_text(b: bool) -> Seq<char> {
    if b {
        "true"@
    } else {
        "false"@
    }
}

/// The strings joined with `sep` between neighbours.
pub open spec fn join_seq(parts: Seq<Seq<char>>, sep: Seq<char>) -> Seq<char>
    decreases parts.len(),
{
    if parts.len() == 0 {
        Seq::empty()
    } else if parts.len() == 1 {
        parts[0]
    } else {
        join_seq(parts.drop_last(), sep) + sep + parts.last()
    }
}

/// `parts.join(sep)`.
pub fn join_strings(parts: &Vec<String>, sep: &str) -> (res: String)
    ensures
        res@ == join_seq(parts@.map_values(|s: String| s@), sep@),
{
    let ghost v = parts@.map_values(|s: String| s@);
    let mut res = String::new();
    let mut i: usize = 0;
    while i < parts.len()
        invariant
            i <= parts.len(),
            v == parts@.map_values(|s: String| s@),
            res@ == join_seq(v.take(i as int), sep@),
        decreases parts.len() - i,
    {
        proof {
            assert(v.take(i + 1).drop_last() =~= v.take(i as int));
            assert(v.take(i + 1).last() == parts@[i as int]@);
        }
        if i > 0 {
            res.append(sep);
        }
        res.append(parts[i].as_str());
        proof {
            if i == 0 {
                assert(v.take(1) =~= seq![parts@[0]@]);
            }
        }
        i += 1;
    }
    proof {
        assert(v.take(parts.len() as int) =~= v);
    }
    res
}


// ---------------------------------------------------------------------------
// UTF-8 byte lengths (what `str::len` counts)
// ---------------------------------------------------------------------------

/// How many bytes the UTF-8 encoding of `c` takes.
pub open spec fn char_bytes(c: char) -> nat {
    if (c as u32) <= 0x7F {
        1
    } else if (c as u32) <= 0x7FF {
        2
    } else if (c as u32) <= 0xFFFF {
        3
    } else {
        4
    }
}

/// The length in bytes of the UTF-8 encoding of `s`.
pub open spec fn byte_len(s: Seq<char>) -> nat
    decreases s.len(),
{
    if s.len() == 0 {
        0
    } else {
        byte_len(s.drop_last()) + char_bytes(s.last())
    }
}

pub proof fn lemma_byte_len_concat(a: Seq<char>, b: Seq<char>)
    ensures
        byte_len(a + b) == byte_len(a) + byte_len(b),
    decreases b.len(),
{
    if b.len() == 0 {
        assert(a + b =~= a);
    } else {
        assert((a + b).drop_last() =~= a + b.drop_last());
        assert((a + b).last() == b.last());
        lemma_byte_len_concat(a, b.drop_last());
    }
}

/// `byte_len` is the length of vstd's UTF-8 encoding of the characters.
pub proof fn lemma_byte_len_is_utf8_len(s: Seq<char>)
    ensures
        byte_len(s) == vstd::utf8::encode_utf8(s).len(),
    decreases s.len(),
{
    if s.len() > 0 {
        let r = s.drop_first();
        lemma_byte_len_is_utf8_len(r);
        lemma_byte_len_concat(seq![s[0]], r);
        assert(seq![s[0]] + r =~= s);
        assert(seq![s[0]].drop_last() =~= Seq::<char>::empty());
        assert(byte_len(seq![s[0]]) == char_bytes(s[0])) by {
            reveal_with_fuel(byte_len, 2);
        }
        vstd::utf8::char_is_scalar(s[0]);
        let v = s[0] as u32;
        assert(vstd::utf8::encode_scalar(v).len() == char_bytes(s[0]));
        assert(vstd::utf8::encode_utf8(s) == vstd::utf8::encode_scalar(v) + vstd::utf8::encode_utf8(r));
        assert(byte_len(s) == char_bytes(s[0]) + byte_len(r));
    }
}

fn char_bytes_exec(c: char) -> (res: u128)
    ensures
        res == char_bytes(c),
{
    let v = c as u32;
    if v <= 0x7F {
        1
    } else if v <= 0x7FF {
        2
    } else if v <= 0xFFFF {
        3
    } else {
        4
    }
}

/// The byte length of `s` (`s.len()`), counted from its characters.
pub fn utf8_len(s: &str) -> (res: u128)
    ensures
        res == byte_len(s@),
        res <= 4 * (usize::MAX as int),
{
    let l = s.unicode_len();
    let mut n: u128 = 0;
    for c in it: s.chars()
        invariant
            it.seq() == s@,
            s@.len() == l,
            n == byte_len(s@.take(it.index() as int)),
            n <= 4 * it.index(),
    {
        proof {
            assert(s@.take(it.index() + 1).drop_last() =~= s@.take(it.index() as int));
            assert(s@.take(it.index() + 1).last() == c);
        }
        n = n + char_bytes_exec(c);
    }
    proof {
        assert(s@.take(s@.len() as int) =~= s@);
    }
    n
}


// ---------------------------------------------------------------------------
// Reading an unsigned number (`str::parse::<u64>`)
// ---------------------------------------------------------------------------

pub open spec fn is_digit(c: char) -> bool {
    '0' <= c && c <= '9'
}

pub open spec fn all_digits(s: Seq<char>) -> bool {
    forall|i: int| 0 <= i < s.len() ==> is_digit(#[trigger] s[i])
}

/// The number the decimal digits denote.
pub open spec fn digits_value(s: Seq<char>) -> nat
    decreases s.len(),
{
    if s.len() == 0 {
        0
    } else {
        digits_value(s.drop_last()) * 10 + ((s.last() as u32) - ('0' as u32)) as nat
    }
}

/// What `s.parse::<u64>()` gives: an optional `+`, then at least one
/// decimal digit, denoting a number that fits.
pub open spec fn parse_u64_spec(s: Seq<char>) -> Option<u64> {
    let d = if s.len() > 0 && s[0] == '+' { s.drop_first() } else { s };
    if d.len() > 0 && all_digits(d) && digits_value(d) <= u64::MAX {
        Some(digits_value(d) as u64)
    } else {
        None
    }
}

proof fn lemma_digits_value_grows(s: Seq<char>, k: int)
    requires
        0 <= k <= s.len(),
        all_digits(s),
    ensures
        digits_value(s.take(k)) <= digits_value(s),
    decreases s.len() - k,
{
    if k < s.len() {
        let t = s.take(k + 1);
        assert(t.drop_last() =~= s.take(k));
        lemma_digits_value_grows(s, k + 1);
        assert(is_digit(s[k]));
    } else {
        assert(s.take(k) =~= s);
    }
}

pub fn parse_u64(s: &str) -> (res: Option<u64>)
    ensures
        res == parse_u64_spec(s@),
{
    let chars = chars_of(s);
    let mut start: usize = 0;
    if chars.len() > 0 && chars[0] == '+' {
        start = 1;
    }
    let ghost d = if s@.len() > 0 && s@[0] == '+' { s@.drop_first() } else { s@ };
    assert(d =~= s@.skip(start as int));
    if start >= chars.len() {
        return None;
    }
    let mut value: u64 = 0;
    let mut i: usize = start;
    while i < chars.len()
        invariant
            start <= i <= chars.len(),
            chars@ == s@,
            d == s@.skip(start as int),
            d == (if s@.len() > 0 && s@[0] == '+' { s@.drop_first() } else { s@ }),
            d.len() > 0,
            all_digits(d.take(i - start)),
            value as nat == digits_value(d.take(i - start)),
        decreases chars.len() - i,
    {
        let c = chars[i];
        let k = i - start;
        proof {
            assert(d[k as int] == c);
            assert(d.take(k + 1).drop_last() =~= d.take(k as int));
            assert(d.take(k + 1).last() == c);
        }
        if !(c >= '0' && c <= '9') {
            proof {
                assert(!is_digit(d[k as int]));
            }
            return None;
        }
        let digit = (c as u32 - '0' as u32) as u64;
        let next = match value.checked_mul(10) {
            Some(m) => m.checked_add(digit),
            None => None,
        };
        match next {
            Some(n) => {
                value = n;
            },
            None => {
                proof {
                    assert(digits_value(d.take(k + 1)) == value * 10 + digit);
                    if all_digits(d) {
                        lemma_digits_value_grows(d, k + 1);
                    }
                }
                return None;
            },
        }
        proof {
            assert forall|j: int| 0 <= j < k + 1 implies is_digit(#[trigger] d.take(k + 1)[j]) by {
                if j < k {
                    assert(d.take(k + 1)[j] == d.take(k as int)[j]);
                }
            }
        }
        i += 1;
    }
    proof {
        assert(d.take(chars.len() - start) =~= d);
    }
    Some(value)
}


// ---------------------------------------------------------------------------
// Replacing a pattern (`str::replace`)
// ---------------------------------------------------------------------------

/// Every occurrence of `pat` in `s`, taken from the left without overlaps,
/// replaced by `rep`.
pub open spec fn replace_all(s: Seq<char>, pat: Seq<char>, rep: Seq<char>) -> Seq<char>
    decreases s.len(),
{
    if pat.len() == 0 || s.len() < pat.len() {
        s
    } else if s.take(pat.len() as int) == pat {
        rep + replace_all(s.skip(pat.len() as int), pat, rep)
    } else {
        seq![s[0]] + replace_all(s.skip(1), pat, rep)
    }
}

fn matches_at(v: &Vec<char>, i: usize, p: &Vec<char>) -> (res: bool)
    requires
        i <= v.len(),
    ensures
        res == (p.len() <= v.len() - i && v@.skip(i as int).take(p.len() as int) == p@),
{
    if p.len() > v.len() - i {
        return false;
    }
    let mut k: usize = 0;
    while k < p.len()
        invariant
            p.len() <= v.len() - i,
            k <= p.len(),
            forall|j: int| 0 <= j < k ==> v@[i + j] == p@[j],
        decreases p.len() - k,
    {
        if v[i + k] != p[k] {
            assert(v@.skip(i as int).take(p.len() as int)[k as int] != p@[k as int]);
            return false;
        }
        k += 1;
    }
    assert(v@.skip(i as int).take(p.len() as int) =~= p@);
    true
}

/// `s.replace(pat, rep)` for a pattern that is not empty.
pub fn replace_str(s: &str, pat: &str, rep: &str) -> (res: String)
    requires
        pat@.len() > 0,
    ensures
        res@ == replace_all(s@, pat@, rep@),
{
    let v = chars_of(s);
    let p = chars_of(pat);
    let mut res = String::new();
    let mut i: usize = 0;
    assert(s@.skip(0) =~= s@);
    while i < v.len()
        invariant
            i <= v.len(),
            v@ == s@,
            p@ == pat@,
            p@.len() > 0,
            res@ + replace_all(s@.skip(i as int), pat@, rep@) == replace_all(s@, pat@, rep@),
        decreases v.len() - i,
    {
        let ghost t = s@.skip(i as int);
        let ghost r0 = res@;
        if matches_at(&v, i, &p) {
            res.append(rep);
            proof {
                assert(t.skip(pat@.len() as int) =~= s@.skip(i + p.len()));
                assert(r0 + (rep@ + replace_all(t.skip(pat@.len() as int), pat@, rep@)) =~= res@ + replace_all(s@.skip(i + p.len()), pat@, rep@));
            }
            i = i + p.len();
        } else {
            push_char(&mut res, v[i]);
            proof {
                assert(t[0] == v@[i as int]);
                if t.len() >= pat@.len() {
                    assert(t.skip(1) =~= s@.skip(i + 1));
                    assert(r0 + (seq![t[0]] + replace_all(t.skip(1), pat@, rep@)) =~= res@ + replace_all(s@.skip(i + 1), pat@, rep@));
                } else {
                    assert(replace_all(t, pat@, rep@) == t);
                    assert(replace_all(s@.skip(i + 1), pat@, rep@) == s@.skip(i + 1));
                    assert(r0 + t =~= res@ + s@.skip(i + 1));
                }
            }
            i = i + 1;
        }
    }
    proof {
        assert(s@.skip(i as int) =~= Seq::<char>::empty());
        assert(res@ + Seq::<char>::empty() =~= res@);
    }
    res
}


/// Whether the vector holds `x`.
pub fn contains_u64(v: &Vec<u64>, x: u64) -> (res: bool)
    ensures
        res == v@.contains(x),
{
    let mut i: usize = 0;
    while i < v.len()
        invariant
            i <= v.len(),
            forall|j: int| 0 <= j < i ==> v@[j] != x,
        decreases v.len() - i,
    {
        if v[i] == x {
            assert(v@[i as int] == x);
            return true;
        }
        i += 1;
    }
    false
}

} // verus!
