//! Verified byte- and string-level utilities shared by the parsers.
//!
//! The raw collaborator output (diagnostic-utility text, kernel counter
//! tables, device attribute files) reaches the core as plain bytes; these
//! helpers give the parsers exact, spec-level meanings for the usual
//! operations: searching, splitting, trimming, case folding and decimal
//! conversion.

use vstd::prelude::*;
use vstd::string::{StrSliceExecFns, StringExecFns};

verus! {

/// ASCII decimal digit.
pub open spec fn is_digit(b: u8) -> bool {
    0x30 <= b <= 0x39
}

/// Numeric value of an ASCII digit byte.
pub open spec fn digit_val(b: u8) -> nat {
    (b - 0x30) as nat
}

/// The character for a single decimal digit.
pub open spec fn digit_char(d: nat) -> char {
    if d == 0 {
        '0'
    } else if d == 1 {
        '1'
    } else if d == 2 {
        '2'
    } else if d == 3 {
        '3'
    } else if d == 4 {
        '4'
    } else if d == 5 {
        '5'
    } else if d == 6 {
        '6'
    } else if d == 7 {
        '7'
    } else if d == 8 {
        '8'
    } else {
        '9'
    }
}

/// Decimal rendering of a natural number, most significant digit first.
pub open spec fn dec_str(n: nat) -> Seq<char>
    decreases n,
{
    if n < 10 {
        seq![digit_char(n)]
    } else {
        dec_str(n / 10).push(digit_char(n % 10))
    }
}

/// One decimal digit as a string slice.
fn digit_str(d: u64) -> (s: &'static str)
    requires
        d < 10,
    ensures
        s@ == seq![digit_char(d as nat)],
{
    let s = if d == 0 {
        "0"
    } else if d == 1 {
        "1"
    } else if d == 2 {
        "2"
    } else if d == 3 {
        "3"
    } else if d == 4 {
        "4"
    } else if d == 5 {
        "5"
    } else if d == 6 {
        "6"
    } else if d == 7 {
        "7"
    } else if d == 8 {
        "8"
    } else {
        "9"
    };
    proof {
        reveal_strlit("0");
        reveal_strlit("1");
        reveal_strlit("2");
        reveal_strlit("3");
        reveal_strlit("4");
        reveal_strlit("5");
        reveal_strlit("6");
        reveal_strlit("7");
        reveal_strlit("8");
        reveal_strlit("9");
        assert(s@ =~= seq![digit_char(d as nat)]);
    }
    s
}

/// Render a number in decimal.
pub fn u64_to_dec_string(n: u64) -> (s: String)
    ensures
        s@ == dec_str(n as nat),
    decreases n,
{
    if n < 10 {
        String::from_str(digit_str(n))
    } else {
        let mut s = u64_to_dec_string(n / 10);
        s.append(digit_str(n % 10));
        proof {
            assert(s@ =~= dec_str(n as nat));
        }
        s
    }
}

/// ASCII whitespace.
pub open spec fn is_ws(b: u8) -> bool {
    b == 0x20 || b == 0x09 || b == 0x0a || b == 0x0b || b == 0x0c || b == 0x0d
}

/// Line feed.
pub open spec fn is_nl(b: u8) -> bool {
    b == 0x0a
}

/// The line-feed predicate as a function value.
pub open spec fn nl_fn() -> spec_fn(u8) -> bool {
    |b: u8| is_nl(b)
}

/// The whitespace predicate as a function value.
pub open spec fn ws_fn() -> spec_fn(u8) -> bool {
    |b: u8| is_ws(b)
}

/// Index of the first byte satisfying `p`, if any.
pub open spec fn find_first(s: Seq<u8>, p: spec_fn(u8) -> bool) -> Option<int>
    decreases s.len(),
{
    if s.len() == 0 {
        None
    } else if p(s[0]) {
        Some(0int)
    } else {
        match find_first(s.drop_first(), p) {
            Some(i) => Some(i + 1),
            None => None,
        }
    }
}

pub proof fn lemma_find_first_char(s: Seq<u8>, p: spec_fn(u8) -> bool)
    ensures
        match find_first(s, p) {
            Some(i) => 0 <= i < s.len() && p(s[i]) && forall|k: int| 0 <= k < i ==> !p(s[k]),
            None => forall|k: int| 0 <= k < s.len() ==> !p(s[k]),
        },
    decreases s.len(),
{
    if s.len() > 0 && !p(s[0]) {
        lemma_find_first_char(s.drop_first(), p);
        assert(forall|k: int| 1 <= k < s.len() ==> s[k] == s.drop_first()[k - 1]);
    }
}

/// A line with one trailing carriage return removed.
pub open spec fn strip_cr(l: Seq<u8>) -> Seq<u8> {
    if l.len() > 0 && l.last() == 0x0d {
        l.drop_last()
    } else {
        l
    }
}

/// The lines of a byte text: split at line feeds, no trailing empty line,
/// one trailing carriage return per line removed.
pub open spec fn lines_of(s: Seq<u8>) -> Seq<Seq<u8>>
    decreases s.len(),
    via lines_of_decreases
{
    if s.len() == 0 {
        Seq::empty()
    } else {
        match find_first(s, nl_fn()) {
            None => seq![strip_cr(s)],
            Some(i) => seq![strip_cr(s.take(i))] + lines_of(s.skip(i + 1)),
        }
    }
}

#[via_fn]
proof fn lines_of_decreases(s: Seq<u8>) {
    lemma_find_first_char(s, nl_fn());
}

/// The whitespace-separated tokens of a byte text: maximal runs of
/// non-whitespace bytes.
pub open spec fn tokens_of(s: Seq<u8>) -> Seq<Seq<u8>>
    decreases s.len(),
    via tokens_of_decreases
{
    if s.len() == 0 {
        Seq::empty()
    } else if is_ws(s[0]) {
        tokens_of(s.drop_first())
    } else {
        match find_first(s, ws_fn()) {
            None => seq![s],
            Some(i) => if i < 1 {
                tokens_of(s.drop_first())
            } else {
                seq![s.take(i)] + tokens_of(s.skip(i))
            },
        }
    }
}

#[via_fn]
proof fn tokens_of_decreases(s: Seq<u8>) {
    lemma_find_first_char(s, ws_fn());
}

/// The bytes of an ASCII character sequence.
pub open spec fn ascii_seq(cs: Seq<char>) -> Seq<u8> {
    Seq::new(cs.len(), |i: int| cs[i] as u8)
}

/// The UTF-8 bytes of a character sequence, as `str::as_bytes` yields them.
pub open spec fn str_bytes(s: Seq<char>) -> Seq<u8> {
    vstd::utf8::encode_utf8(s)
}

/// The bytes of an ASCII string slice.
pub fn ascii_bytes(s: &str) -> (v: Vec<u8>)
    requires
        vstd::string::is_ascii(s),
    ensures
        v@ == ascii_seq(s@),
{
    let b = s.as_bytes();
    let v = vstd::slice::slice_to_vec(b);
    proof {
        vstd::string::is_ascii_spec_bytes(s);
        assert(v@ =~= ascii_seq(s@));
    }
    v
}

/// The bytes of any string slice.
pub fn str_to_bytes(s: &str) -> (v: Vec<u8>)
    ensures
        v@ == str_bytes(s@),
{
    let b = s.as_bytes();
    vstd::slice::slice_to_vec(b)
}

/// The abstract views of a list of byte vectors.
pub open spec fn views_of(r: Seq<Vec<u8>>) -> Seq<Seq<u8>> {
    r.map_values(|v: Vec<u8>| v@)
}

proof fn lemma_views_of_push(r: Seq<Vec<u8>>, x: Vec<u8>)
    ensures
        views_of(r.push(x)) =~= views_of(r).push(x@),
{
    assert(forall|i: int| 0 <= i < r.len() ==> r.push(x)[i] == r[i]);
}

/// Where the first byte satisfying `p` is known, `find_first` returns it.
pub proof fn lemma_find_first_is(s: Seq<u8>, p: spec_fn(u8) -> bool, i: int)
    requires
        0 <= i <= s.len(),
        forall|k: int| 0 <= k < i ==> !p(s[k]),
        i < s.len() ==> p(s[i]),
    ensures
        find_first(s, p) == (if i < s.len() {
            Some(i)
        } else {
            None::<int>
        }),
{
    lemma_find_first_char(s, p);
    match find_first(s, p) {
        Some(x) => {
            assert(p(s[x]));
            if x < i {
                assert(!p(s[x]));
            }
            if x > i {
                assert(i < s.len());
                assert(!p(s[i]));
            }
        },
        None => {
            if i < s.len() {
                assert(!p(s[i]));
            }
        },
    }
}

/// Split a byte text into its lines.
pub fn split_lines(s: &[u8]) -> (r: Vec<Vec<u8>>)
    ensures
        views_of(r@) == lines_of(s@),
{
    let mut out: Vec<Vec<u8>> = Vec::new();
    let mut pos: usize = 0;
    proof {
        assert(s@.skip(0) =~= s@);
        assert(views_of(out@) =~= Seq::<Seq<u8>>::empty());
    }
    while pos < s.len()
        invariant
            pos <= s@.len(),
            lines_of(s@) == views_of(out@) + lines_of(s@.skip(pos as int)),
        decreases s@.len() - pos,
    {
        let mut j: usize = pos;
        while j < s.len() && s[j] != 0x0a
            invariant
                pos <= j <= s@.len(),
                forall|k: int| pos <= k < j ==> !is_nl(s@[k]),
            decreases s@.len() - j,
        {
            j += 1;
        }
        let end = if j > pos && s[j - 1] == 0x0d {
            j - 1
        } else {
            j
        };
        let line = copy_range(s, pos, end);
        let ghost pre = out@;
        out.push(line);
        proof {
            lemma_views_of_push(pre, line);
            let rem = s@.skip(pos as int);
            assert(forall|k: int| 0 <= k < j - pos ==> rem[k] == s@[k + pos]);
            assert(forall|k: int| 0 <= k < j - pos ==> !(nl_fn())(rem[k]));
            if j < s.len() {
                assert((nl_fn())(rem[j - pos as int]));
            }
            lemma_find_first_is(rem, nl_fn(), j - pos as int);
            assert(rem.take(j - pos as int) =~= s@.subrange(pos as int, j as int));
            if j > pos && s@[j - 1] == 0x0d {
                assert(s@.subrange(pos as int, j as int).last() == 0x0d);
                assert(strip_cr(s@.subrange(pos as int, j as int)) =~= s@.subrange(
                    pos as int,
                    end as int,
                ));
            } else {
                assert(strip_cr(s@.subrange(pos as int, j as int)) =~= s@.subrange(
                    pos as int,
                    end as int,
                ));
            }
            if j < s.len() {
                assert(rem.skip(j - pos as int + 1) =~= s@.skip(j + 1));
                assert(lines_of(rem) == seq![line@] + lines_of(s@.skip(j + 1)));
            } else {
                assert(rem =~= s@.subrange(pos as int, j as int));
                assert(lines_of(rem) == seq![line@]);
                assert(s@.skip(j as int) =~= Seq::<u8>::empty());
                assert(lines_of(s@.skip(j as int)) == Seq::<Seq<u8>>::empty());
                assert(lines_of(rem) == seq![line@] + lines_of(s@.skip(j as int)));
            }
            assert(views_of(out@) + lines_of(s@.skip(if j < s@.len() {
                j + 1
            } else {
                j as int
            })) =~= lines_of(s@));
        }
        pos = if j < s.len() {
            j + 1
        } else {
            j
        };
    }
    proof {
        assert(s@.skip(pos as int) =~= Seq::<u8>::empty());
        assert(views_of(out@) =~= lines_of(s@));
    }
    out
}

/// Split a byte text into its whitespace-separated tokens.
pub fn split_ws_tokens(s: &[u8]) -> (r: Vec<Vec<u8>>)
    ensures
        views_of(r@) == tokens_of(s@),
{
    let mut out: Vec<Vec<u8>> = Vec::new();
    let mut pos: usize = 0;
    proof {
        assert(s@.skip(0) =~= s@);
        assert(views_of(out@) =~= Seq::<Seq<u8>>::empty());
    }
    while pos < s.len()
        invariant
            pos <= s@.len(),
            tokens_of(s@) == views_of(out@) + tokens_of(s@.skip(pos as int)),
        decreases s@.len() - pos,
    {
        if is_ws_byte(s[pos]) {
            proof {
                let rem = s@.skip(pos as int);
                assert(is_ws(rem[0]));
                assert(rem.drop_first() =~= s@.skip(pos + 1));
                assert(tokens_of(rem) == tokens_of(s@.skip(pos + 1)));
            }
            pos += 1;
        } else {
            let mut j: usize = pos;
            while j < s.len() && !is_ws_byte(s[j])
                invariant
                    pos <= j <= s@.len(),
                    forall|k: int| pos <= k < j ==> !is_ws(s@[k]),
                decreases s@.len() - j,
            {
                j += 1;
            }
            let tok = copy_range(s, pos, j);
            let ghost pre = out@;
            out.push(tok);
            proof {
                lemma_views_of_push(pre, tok);
                let rem = s@.skip(pos as int);
                assert(!is_ws(rem[0]));
                assert(forall|k: int| 0 <= k < j - pos ==> rem[k] == s@[k + pos]);
                assert(forall|k: int| 0 <= k < j - pos ==> !(ws_fn())(rem[k]));
                if j < s.len() {
                    assert((ws_fn())(rem[j - pos as int]));
                }
                lemma_find_first_is(rem, ws_fn(), j - pos as int);
                assert(rem.take(j - pos as int) =~= s@.subrange(pos as int, j as int));
                if j < s.len() {
                    assert(j - pos >= 1);
                    assert(rem.skip(j - pos as int) =~= s@.skip(j as int));
                    assert(tokens_of(rem) == seq![tok@] + tokens_of(s@.skip(j as int)));
                } else {
                    assert(rem =~= s@.subrange(pos as int, j as int));
                    assert(tokens_of(rem) == seq![tok@]);
                    assert(s@.skip(j as int) =~= Seq::<u8>::empty());
                    assert(tokens_of(rem) == seq![tok@] + tokens_of(s@.skip(j as int)));
                }
                assert(views_of(out@) + tokens_of(s@.skip(j as int)) =~= tokens_of(s@));
            }
            pos = j;
        }
    }
    proof {
        assert(s@.skip(pos as int) =~= Seq::<u8>::empty());
        assert(views_of(out@) =~= tokens_of(s@));
    }
    out
}

/// Value of a digit string.
pub open spec fn digits_val(s: Seq<u8>) -> nat
    decreases s.len(),
{
    if s.len() == 0 {
        0
    } else {
        digits_val(s.drop_last()) * 10 + digit_val(s.last())
    }
}

/// Every byte is an ASCII digit.
pub open spec fn all_digits(s: Seq<u8>) -> bool {
    forall|i: int| 0 <= i < s.len() ==> is_digit(s[i])
}

/// What decimal parsing of a token yields: the value of a non-empty,
/// all-digit token that fits, and nothing otherwise.
pub open spec fn parse_u64_spec(s: Seq<u8>) -> Option<u64> {
    if s.len() > 0 && all_digits(s) && digits_val(s) <= u64::MAX {
        Some(digits_val(s) as u64)
    } else {
        None
    }
}

/// Decimal parsing into 32 bits: as for 64 bits, with the tighter bound.
pub open spec fn parse_u32_spec(s: Seq<u8>) -> Option<u32> {
    if s.len() > 0 && all_digits(s) && digits_val(s) <= u32::MAX {
        Some(digits_val(s) as u32)
    } else {
        None
    }
}

proof fn lemma_digits_prefix(s: Seq<u8>, k: int)
    requires
        0 <= k <= s.len(),
    ensures
        digits_val(s.take(k)) <= digits_val(s),
    decreases s.len(),
{
    if k < s.len() {
        lemma_digits_prefix(s.drop_last(), k);
        assert(s.drop_last().take(k) =~= s.take(k));
        assert(digits_val(s.drop_last()) * 10 >= digits_val(s.drop_last()));
    } else {
        assert(s.take(k) =~= s);
    }
}

/// Parse a decimal token into 64 bits.
pub fn parse_u64_bytes(t: &[u8]) -> (r: Option<u64>)
    ensures
        r == parse_u64_spec(t@),
{
    if t.len() == 0 {
        return None;
    }
    let mut acc: u64 = 0;
    let mut i: usize = 0;
    while i < t.len()
        invariant
            i <= t@.len(),
            t@.len() > 0,
            all_digits(t@.take(i as int)),
            acc == digits_val(t@.take(i as int)),
        decreases t@.len() - i,
    {
        let b = t[i];
        if b < 0x30 || b > 0x39 {
            proof {
                assert(!is_digit(t@[i as int]));
            }
            return None;
        }
        let d = (b - 0x30) as u64;
        if acc > (u64::MAX - d) / 10 {
            proof {
                assert(t@.take(i + 1).drop_last() =~= t@.take(i as int));
                assert(digits_val(t@.take(i + 1)) == acc * 10 + d);
                assert(acc * 10 + d > u64::MAX);
                lemma_digits_prefix(t@, i + 1);
            }
            return None;
        }
        proof {
            assert(t@.take(i + 1).drop_last() =~= t@.take(i as int));
            assert(acc * 10 + d <= u64::MAX) by {
                assert(acc <= (u64::MAX - d) / 10);
                assert(acc * 10 <= ((u64::MAX - d) / 10) * 10);
                assert(((u64::MAX - d) / 10) * 10 <= u64::MAX - d);
            }
        }
        acc = acc * 10 + d;
        i += 1;
    }
    proof {
        assert(t@.take(t@.len() as int) =~= t@);
    }
    Some(acc)
}

/// Parse a decimal token into 32 bits.
pub fn parse_u32_bytes(t: &[u8]) -> (r: Option<u32>)
    ensures
        r == parse_u32_spec(t@),
{
    match parse_u64_bytes(t) {
        Some(v) => {
            if v <= u32::MAX as u64 {
                Some(v as u32)
            } else {
                None
            }
        },
        None => {
            proof {
                if t@.len() > 0 && all_digits(t@) {
                    assert(digits_val(t@) > u64::MAX);
                }
            }
            None
        },
    }
}

/// The needle occurs as a contiguous run somewhere in the haystack.
pub open spec fn contains_sub(h: Seq<u8>, n: Seq<u8>) -> bool {
    exists|k: int| 0 <= k <= h.len() - n.len() && #[trigger] h.subrange(k, k + n.len()) == n
}

/// Substring search.
pub fn contains_bytes(h: &[u8], n: &[u8]) -> (r: bool)
    ensures
        r <==> contains_sub(h@, n@),
{
    if n.len() > h.len() {
        return false;
    }
    if n.len() == 0 {
        proof {
            assert(h@.subrange(0, 0 + n@.len() as int) =~= n@);
            assert(contains_sub(h@, n@));
        }
        return true;
    }
    let mut k: usize = 0;
    while k <= h.len() - n.len()
        invariant
            1 <= n@.len() <= h@.len(),
            k <= h@.len() - n@.len() + 1,
            forall|q: int| 0 <= q < k ==> #[trigger] h@.subrange(q, q + n@.len()) != n@,
        decreases h@.len() - n@.len() + 1 - k,
    {
        if window_matches(h, k, n) {
            return true;
        }
        k += 1;
    }
    false
}

/// Whether the needle occurs at offset `k` of the haystack.
fn window_matches(h: &[u8], k: usize, n: &[u8]) -> (r: bool)
    requires
        k + n@.len() <= h@.len(),
    ensures
        r <==> h@.subrange(k as int, k + n@.len()) == n@,
{
    // the slice length must be known bounded for the index arithmetic below
    let _len_bound = h.len();
    let mut m: usize = 0;
    while m < n.len()
        invariant
            m <= n@.len(),
            k + n@.len() <= h@.len(),
            h@.len() <= usize::MAX,
            forall|q: int| 0 <= q < m ==> h@[k + q] == n@[q],
        decreases n@.len() - m,
    {
        if h[k + m] != n[m] {
            proof {
                assert(h@.subrange(k as int, k + n@.len())[m as int] != n@[m as int]);
            }
            return false;
        }
        m += 1;
    }
    proof {
        assert(h@.subrange(k as int, k + n@.len()) =~= n@);
    }
    true
}

/// Lowercase folding of one ASCII byte.
pub open spec fn lower_byte(b: u8) -> u8 {
    if 0x41 <= b <= 0x5a {
        (b + 0x20) as u8
    } else {
        b
    }
}

/// Lowercase folding of a byte text.
pub open spec fn lower_seq(s: Seq<u8>) -> Seq<u8> {
    Seq::new(s.len(), |i: int| lower_byte(s[i]))
}

/// ASCII lowercase a byte text.
pub fn to_lower_bytes(s: &[u8]) -> (r: Vec<u8>)
    ensures
        r@ == lower_seq(s@),
{
    let mut r: Vec<u8> = Vec::new();
    let mut i: usize = 0;
    while i < s.len()
        invariant
            i <= s@.len(),
            r@.len() == i,
            forall|k: int| 0 <= k < i ==> r@[k] == lower_byte(s@[k]),
        decreases s@.len() - i,
    {
        let b = s[i];
        if b >= 0x41 && b <= 0x5a {
            r.push(b + 0x20);
        } else {
            r.push(b);
        }
        i += 1;
    }
    proof {
        assert(r@ =~= lower_seq(s@));
    }
    r
}

/// Case-insensitive ASCII equality.
pub fn eq_ignore_ascii_case(a: &[u8], b: &[u8]) -> (r: bool)
    ensures
        r <==> lower_seq(a@) == lower_seq(b@),
{
    if a.len() != b.len() {
        proof {
            assert(lower_seq(a@).len() != lower_seq(b@).len());
        }
        return false;
    }
    let mut i: usize = 0;
    while i < a.len()
        invariant
            i <= a.len(),
            a@.len() == b@.len(),
            forall|k: int| 0 <= k < i ==> lower_byte(a@[k]) == lower_byte(b@[k]),
        decreases a@.len() - i,
    {
        let x = a[i];
        let y = b[i];
        let lx = if x >= 0x41 && x <= 0x5a {
            x + 0x20
        } else {
            x
        };
        let ly = if y >= 0x41 && y <= 0x5a {
            y + 0x20
        } else {
            y
        };
        if lx != ly {
            proof {
                assert(lower_seq(a@)[i as int] != lower_seq(b@)[i as int]);
            }
            return false;
        }
        i += 1;
    }
    proof {
        assert(lower_seq(a@) =~= lower_seq(b@));
    }
    true
}

/// Leading whitespace removed.
pub open spec fn trim_front(s: Seq<u8>) -> Seq<u8>
    decreases s.len(),
{
    if s.len() > 0 && is_ws(s[0]) {
        trim_front(s.drop_first())
    } else {
        s
    }
}

/// Trailing whitespace removed.
pub open spec fn trim_back(s: Seq<u8>) -> Seq<u8>
    decreases s.len(),
{
    if s.len() > 0 && is_ws(s.last()) {
        trim_back(s.drop_last())
    } else {
        s
    }
}

/// Surrounding whitespace removed.
pub open spec fn trim_spec(s: Seq<u8>) -> Seq<u8> {
    trim_back(trim_front(s))
}

proof fn lemma_trim_front_skip(s: Seq<u8>, i: int)
    requires
        0 <= i <= s.len(),
        forall|k: int| 0 <= k < i ==> is_ws(s[k]),
        i < s.len() ==> !is_ws(s[i]),
    ensures
        trim_front(s) == s.skip(i),
    decreases i,
{
    if i == 0 {
        assert(s.skip(0) =~= s);
    } else {
        lemma_trim_front_skip(s.drop_first(), i - 1);
        assert(forall|k: int| 0 <= k < i - 1 ==> s.drop_first()[k] == s[k + 1]);
        assert(s.drop_first().skip(i - 1) =~= s.skip(i));
    }
}

proof fn lemma_trim_back_take(s: Seq<u8>, j: int)
    requires
        0 <= j <= s.len(),
        forall|k: int| j <= k < s.len() ==> is_ws(s[k]),
        j > 0 ==> !is_ws(s[j - 1]),
    ensures
        trim_back(s) == s.take(j),
    decreases s.len() - j,
{
    if j == s.len() {
        assert(s.take(j) =~= s);
    } else {
        lemma_trim_back_take(s.drop_last(), j);
        assert(s.drop_last().take(j) =~= s.take(j));
    }
}

/// Strip surrounding ASCII whitespace.
pub fn trim_bytes(s: &[u8]) -> (r: Vec<u8>)
    ensures
        r@ == trim_spec(s@),
{
    let mut i: usize = 0;
    while i < s.len() && is_ws_byte(s[i])
        invariant
            i <= s@.len(),
            forall|k: int| 0 <= k < i ==> is_ws(s@[k]),
        decreases s@.len() - i,
    {
        i += 1;
    }
    let mut j: usize = s.len();
    while j > i && is_ws_byte(s[j - 1])
        invariant
            i <= j <= s@.len(),
            forall|k: int| 0 <= k < i ==> is_ws(s@[k]),
            forall|k: int| j <= k < s@.len() ==> is_ws(s@[k]),
        decreases j,
    {
        j -= 1;
    }
    let r = copy_range(s, i, j);
    proof {
        lemma_trim_front_skip(s@, i as int);
        if j == i {
            lemma_trim_back_take(s@.skip(i as int), 0);
        } else {
            lemma_trim_back_take(s@.skip(i as int), j - i as int);
        }
        assert(s@.skip(i as int).take(j - i as int) =~= s@.subrange(i as int, j as int));
    }
    r
}

/// ASCII whitespace, at the character level.
pub open spec fn is_ws_char(c: char) -> bool {
    c == ' ' || c == '\t' || c == '\n' || c == '\r' || c == '\u{b}' || c == '\u{c}'
}

/// Leading whitespace characters removed.
pub open spec fn trim_chars_front(s: Seq<char>) -> Seq<char>
    decreases s.len(),
{
    if s.len() > 0 && is_ws_char(s[0]) {
        trim_chars_front(s.drop_first())
    } else {
        s
    }
}

/// Trailing whitespace characters removed.
pub open spec fn trim_chars_back(s: Seq<char>) -> Seq<char>
    decreases s.len(),
{
    if s.len() > 0 && is_ws_char(s.last()) {
        trim_chars_back(s.drop_last())
    } else {
        s
    }
}

/// Surrounding whitespace characters removed.
pub open spec fn trim_chars(s: Seq<char>) -> Seq<char> {
    trim_chars_back(trim_chars_front(s))
}

proof fn lemma_trim_chars_front_skip(s: Seq<char>, i: int)
    requires
        0 <= i <= s.len(),
        forall|k: int| 0 <= k < i ==> is_ws_char(s[k]),
        i < s.len() ==> !is_ws_char(s[i]),
    ensures
        trim_chars_front(s) == s.skip(i),
    decreases i,
{
    if i == 0 {
        assert(s.skip(0) =~= s);
    } else {
        lemma_trim_chars_front_skip(s.drop_first(), i - 1);
        assert(forall|k: int| 0 <= k < i - 1 ==> s.drop_first()[k] == s[k + 1]);
        assert(s.drop_first().skip(i - 1) =~= s.skip(i));
    }
}

proof fn lemma_trim_chars_back_take(s: Seq<char>, j: int)
    requires
        0 <= j <= s.len(),
        forall|k: int| j <= k < s.len() ==> is_ws_char(s[k]),
        j > 0 ==> !is_ws_char(s[j - 1]),
    ensures
        trim_chars_back(s) == s.take(j),
    decreases s.len() - j,
{
    if j == s.len() {
        assert(s.take(j) =~= s);
    } else {
        lemma_trim_chars_back_take(s.drop_last(), j);
        assert(s.drop_last().take(j) =~= s.take(j));
    }
}

fn is_ws_char_exec(c: char) -> (r: bool)
    ensures
        r == is_ws_char(c),
{
    c == ' ' || c == '\t' || c == '\n' || c == '\r' || c == '\u{b}' || c == '\u{c}'
}

/// Strip surrounding whitespace characters from a string.
pub fn trim_str(s: &str) -> (r: String)
    ensures
        r@ == trim_chars(s@),
{
    let n = s.unicode_len();
    let mut i: usize = 0;
    while i < n && is_ws_char_exec(s.get_char(i))
        invariant
            i <= n,
            n == s@.len(),
            forall|k: int| 0 <= k < i ==> is_ws_char(s@[k]),
        decreases n - i,
    {
        i += 1;
    }
    let mut j: usize = n;
    while j > i && is_ws_char_exec(s.get_char(j - 1))
        invariant
            i <= j <= n,
            n == s@.len(),
            forall|k: int| 0 <= k < i ==> is_ws_char(s@[k]),
            forall|k: int| j <= k < s@.len() ==> is_ws_char(s@[k]),
        decreases j,
    {
        j -= 1;
    }
    let sub = s.substring_char(i, j);
    proof {
        lemma_trim_chars_front_skip(s@, i as int);
        if j == i {
            lemma_trim_chars_back_take(s@.skip(i as int), 0);
        } else {
            lemma_trim_chars_back_take(s@.skip(i as int), j - i as int);
        }
        assert(s@.skip(i as int).take(j - i as int) =~= s@.subrange(i as int, j as int));
    }
    String::from_str(sub)
}

/// Whether a byte is ASCII whitespace.
pub fn is_ws_byte(b: u8) -> (r: bool)
    ensures
        r == is_ws(b),
{
    b == 0x20 || b == 0x09 || b == 0x0a || b == 0x0b || b == 0x0c || b == 0x0d
}

/// Exact byte equality of two slices.
pub fn bytes_eq(a: &[u8], b: &[u8]) -> (r: bool)
    ensures
        r <==> a@ == b@,
{
    if a.len() != b.len() {
        proof {
            assert(a@.len() != b@.len());
        }
        return false;
    }
    let mut i: usize = 0;
    while i < a.len()
        invariant
            i <= a.len(),
            a.len() == b.len(),
            forall|k: int| 0 <= k < i ==> a@[k] == b@[k],
        decreases a.len() - i,
    {
        if a[i] != b[i] {
            return false;
        }
        i += 1;
    }
    proof {
        assert(a@ =~= b@);
    }
    true
}

/// Copy the byte range `[from, to)` of a slice into an owned vector.
pub fn copy_range(s: &[u8], from: usize, to: usize) -> (r: Vec<u8>)
    requires
        from <= to <= s@.len(),
    ensures
        r@ == s@.subrange(from as int, to as int),
{
    let mut r: Vec<u8> = Vec::new();
    let mut i: usize = from;
    while i < to
        invariant
            from <= i <= to <= s@.len(),
            r@ == s@.subrange(from as int, i as int),
        decreases to - i,
    {
        r.push(s[i]);
        proof {
            assert(r@ =~= s@.subrange(from as int, (i + 1) as int));
        }
        i += 1;
    }
    r
}

} // verus!
