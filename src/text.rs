//! Character-level scanning primitives over MI text.
//!
//! Every scanner here is stated as a spec function over `Seq<char>` and
//! implemented by a loop over a `&[char]` slice that is proved to agree with it.
use vstd::prelude::*;

verus! {

// ───────────────────────────── spec layer ─────────────────────────────

/// `r` is the executable rendering of the spec position `m`.
pub open spec fn pos_is(r: Option<usize>, m: Option<int>) -> bool {
    match r {
        Some(k) => m == Some(k as int),
        None => m is None,
    }
}

/// `p` occurs in `s` starting at index `i`.
pub open spec fn occurs_at(s: Seq<char>, p: Seq<char>, i: int) -> bool {
    0 <= i && i + p.len() <= s.len() && s.subrange(i, i + p.len()) == p
}

/// The first index `>= i` at which `p` occurs in `s`.
pub open spec fn find_from(s: Seq<char>, p: Seq<char>, i: int) -> Option<int>
    decreases s.len() + 1 - i,
{
    if i < 0 || i + p.len() > s.len() {
        None
    } else if occurs_at(s, p, i) {
        Some(i)
    } else {
        find_from(s, p, i + 1)
    }
}

/// The first index at which `p` occurs in `s`.
pub open spec fn find(s: Seq<char>, p: Seq<char>) -> Option<int> {
    find_from(s, p, 0)
}

/// Scans for the first `"` that is not escaped by a preceding backslash.
pub open spec fn quote_end_from(s: Seq<char>, i: int, escaped: bool) -> Option<int>
    decreases s.len() - i,
{
    if i < 0 || i >= s.len() {
        None
    } else if escaped {
        quote_end_from(s, i + 1, false)
    } else if s[i] == '\\' {
        quote_end_from(s, i + 1, true)
    } else if s[i] == '"' {
        Some(i)
    } else {
        quote_end_from(s, i + 1, false)
    }
}

/// Index of the unescaped `"` that closes a quoted value whose body starts `s`.
pub open spec fn closing_quote(s: Seq<char>) -> Option<int> {
    quote_end_from(s, 0, false)
}

/// Depth-aware scan: `depth` delimiters are open; quoted text and escaped
/// characters never change the depth.
pub open spec fn close_from(
    s: Seq<char>,
    open: char,
    close: char,
    i: int,
    depth: nat,
    in_str: bool,
    escaped: bool,
) -> Option<int>
    decreases s.len() - i,
{
    if i < 0 || i >= s.len() {
        None
    } else if escaped {
        close_from(s, open, close, i + 1, depth, in_str, false)
    } else if s[i] == '\\' {
        close_from(s, open, close, i + 1, depth, in_str, true)
    } else if s[i] == '"' {
        close_from(s, open, close, i + 1, depth, !in_str, false)
    } else if in_str {
        close_from(s, open, close, i + 1, depth, in_str, false)
    } else if s[i] == open {
        close_from(s, open, close, i + 1, depth + 1, in_str, false)
    } else if s[i] == close {
        if depth <= 1 {
            Some(i)
        } else {
            close_from(s, open, close, i + 1, (depth - 1) as nat, in_str, false)
        }
    } else {
        close_from(s, open, close, i + 1, depth, in_str, false)
    }
}

/// Index of the delimiter that closes one already-open `open` at the start of `s`.
pub open spec fn closing(s: Seq<char>, open: char, close: char) -> Option<int> {
    close_from(s, open, close, 0, 1, false, false)
}

/// What one backslash escape `\c` stands for.
pub open spec fn escape_meaning(c: char) -> Seq<char> {
    if c == '"' {
        seq!['"']
    } else if c == 'n' {
        seq!['\n']
    } else if c == 't' {
        seq!['\t']
    } else if c == '\\' {
        seq!['\\']
    } else {
        seq!['\\', c]
    }
}

/// Resolves the backslash escapes of a quoted value's body.
pub open spec fn unescaped(s: Seq<char>) -> Seq<char>
    decreases s.len(),
{
    if s.len() == 0 {
        seq![]
    } else if s[0] == '\\' {
        if s.len() == 1 {
            seq!['\\']
        } else {
            escape_meaning(s[1]) + unescaped(s.subrange(2, s.len() as int))
        }
    } else {
        seq![s[0]] + unescaped(s.subrange(1, s.len() as int))
    }
}

/// The characters that Unicode classes as White_Space.
pub open spec fn is_space(c: char) -> bool {
    ('\u{9}' <= c && c <= '\u{d}') || c == ' ' || c == '\u{85}' || c == '\u{a0}'
        || c == '\u{1680}' || ('\u{2000}' <= c && c <= '\u{200a}') || c == '\u{2028}'
        || c == '\u{2029}' || c == '\u{202f}' || c == '\u{205f}' || c == '\u{3000}'
}

/// Number of leading white-space characters.
pub open spec fn lead_space(s: Seq<char>) -> nat
    decreases s.len(),
{
    if s.len() > 0 && is_space(s[0]) {
        1 + lead_space(s.subrange(1, s.len() as int))
    } else {
        0
    }
}

/// Number of trailing white-space characters.
pub open spec fn trail_space(s: Seq<char>) -> nat
    decreases s.len(),
{
    if s.len() > 0 && is_space(s.last()) {
        1 + trail_space(s.drop_last())
    } else {
        0
    }
}

/// `s` without white space at either end.
pub open spec fn trimmed(s: Seq<char>) -> Seq<char> {
    let t = s.subrange(lead_space(s) as int, s.len() as int);
    t.subrange(0, t.len() - trail_space(t))
}

/// The text of a stream record's payload: trimmed, unquoted and unescaped.
pub open spec fn unquoted(s: Seq<char>) -> Seq<char> {
    let t = trimmed(s);
    if t.len() >= 2 && t[0] == '"' && t.last() == '"' {
        unescaped(t.subrange(1, t.len() - 1))
    } else if t.len() >= 1 && t[0] == '"' {
        unescaped(t.subrange(1, t.len() as int))
    } else {
        t
    }
}

/// Value of a digit character in the given radix, if it is one.
pub open spec fn digit_value(c: char, radix: nat) -> Option<nat> {
    let v: int = if '0' <= c && c <= '9' {
        c as int - '0' as int
    } else if 'a' <= c && c <= 'z' {
        c as int - 'a' as int + 10
    } else if 'A' <= c && c <= 'Z' {
        c as int - 'A' as int + 10
    } else {
        radix as int
    };
    if v < radix {
        Some(v as nat)
    } else {
        None
    }
}

/// All characters of `s` are digits in the radix.
pub open spec fn all_digits(s: Seq<char>, radix: nat) -> bool {
    forall|i: int| 0 <= i < s.len() ==> (#[trigger] digit_value(s[i], radix)) is Some
}

/// Positional value of a digit string, most significant digit first.
pub open spec fn digits_value(s: Seq<char>, radix: nat) -> nat
    decreases s.len(),
{
    if s.len() == 0 {
        0
    } else {
        digits_value(s.drop_last(), radix) * radix + match digit_value(s.last(), radix) {
            Some(d) => d,
            None => 0,
        }
    }
}

/// How an unsigned integer of at most `max` is read from text in a radix:
/// an optional `+`, then at least one digit, and a value that fits.
pub open spec fn parse_unsigned(s: Seq<char>, radix: nat, max: nat) -> Option<nat> {
    let d = if s.len() > 1 && s[0] == '+' {
        s.subrange(1, s.len() as int)
    } else {
        s
    };
    if s.len() == 0 || !all_digits(d, radix) || digits_value(d, radix) > max {
        None
    } else {
        Some(digits_value(d, radix))
    }
}

/// Decimal reading of a `u32`.
pub open spec fn parse_u32(s: Seq<char>) -> Option<u32> {
    match parse_unsigned(s, 10, u32::MAX as nat) {
        Some(v) => Some(v as u32),
        None => None,
    }
}

/// `s` with every leading `0x` removed.
pub open spec fn strip_hex_prefix(s: Seq<char>) -> Seq<char>
    decreases s.len(),
{
    if s.len() >= 2 && s[0] == '0' && s[1] == 'x' {
        strip_hex_prefix(s.subrange(2, s.len() as int))
    } else {
        s
    }
}

/// An address as the debugger prints it: hexadecimal, `0x` optional; zero
/// where it does not read.
pub open spec fn parse_addr(s: Seq<char>) -> u64 {
    match parse_unsigned(strip_hex_prefix(s), 16, u64::MAX as nat) {
        Some(v) => v as u64,
        None => 0,
    }
}

/// The character of a decimal digit.
pub open spec fn digit_char(d: nat) -> char {
    if d == 0 {
        '0'
    } else if d == 1 {
        '1'
    } else if d == 2 {
        '2'
    } else if d == 3 {
        '3'
    } else if d == 4 {
        '4'
    } else if d == 5 {
        '5'
    } else if d == 6 {
        '6'
    } else if d == 7 {
        '7'
    } else if d == 8 {
        '8'
    } else {
        '9'
    }
}

/// Decimal digits of `n`, without leading zeros.
pub open spec fn decimal(n: nat) -> Seq<char>
    decreases n,
{
    if n < 10 {
        seq![digit_char(n)]
    } else {
        decimal(n / 10).push(digit_char(n % 10))
    }
}

// ───────────────────────────── bounds ─────────────────────────────

/// A match found by `find_from` lies inside `s`, at or after `i`.
pub proof fn lemma_find_from_bound(s: Seq<char>, p: Seq<char>, i: int)
    ensures
        match find_from(s, p, i) {
            Some(k) => i <= k && k + p.len() <= s.len() && occurs_at(s, p, k),
            None => true,
        },
    decreases s.len() + 1 - i,
{
    if i < 0 || i + p.len() > s.len() {
    } else if occurs_at(s, p, i) {
    } else {
        lemma_find_from_bound(s, p, i + 1);
    }
}

/// A closing quote lies inside `s`, at or after `i`.
pub proof fn lemma_quote_end_bound(s: Seq<char>, i: int, escaped: bool)
    ensures
        match quote_end_from(s, i, escaped) {
            Some(k) => i <= k < s.len(),
            None => true,
        },
    decreases s.len() - i,
{
    if i < 0 || i >= s.len() {
    } else if escaped {
        lemma_quote_end_bound(s, i + 1, false);
    } else if s[i] == '\\' {
        lemma_quote_end_bound(s, i + 1, true);
    } else if s[i] == '"' {
    } else {
        lemma_quote_end_bound(s, i + 1, false);
    }
}

/// A closing delimiter lies inside `s`, at or after `i`.
pub proof fn lemma_close_bound(
    s: Seq<char>,
    open: char,
    close: char,
    i: int,
    depth: nat,
    in_str: bool,
    escaped: bool,
)
    ensures
        match close_from(s, open, close, i, depth, in_str, escaped) {
            Some(k) => i <= k < s.len(),
            None => true,
        },
    decreases s.len() - i,
{
    if i < 0 || i >= s.len() {
    } else if escaped {
        lemma_close_bound(s, open, close, i + 1, depth, in_str, false);
    } else if s[i] == '\\' {
        lemma_close_bound(s, open, close, i + 1, depth, in_str, true);
    } else if s[i] == '"' {
        lemma_close_bound(s, open, close, i + 1, depth, !in_str, false);
    } else if in_str {
        lemma_close_bound(s, open, close, i + 1, depth, in_str, false);
    } else if s[i] == open {
        lemma_close_bound(s, open, close, i + 1, depth + 1, in_str, false);
    } else if s[i] == close {
        if depth > 1 {
            lemma_close_bound(s, open, close, i + 1, (depth - 1) as nat, in_str, false);
        }
    } else {
        lemma_close_bound(s, open, close, i + 1, depth, in_str, false);
    }
}

/// Every scanner result indexes into the scanned text.
pub proof fn lemma_scan_bounds(s: Seq<char>)
    ensures
        forall|p: Seq<char>| match #[trigger] find(s, p) {
            Some(k) => 0 <= k && k + p.len() <= s.len(),
            None => true,
        },
        match closing_quote(s) {
            Some(k) => 0 <= k < s.len(),
            None => true,
        },
        forall|o: char, c: char| match #[trigger] closing(s, o, c) {
            Some(k) => 0 <= k < s.len(),
            None => true,
        },
{
    assert forall|p: Seq<char>| match #[trigger] find(s, p) {
        Some(k) => 0 <= k && k + p.len() <= s.len(),
        None => true,
    } by {
        lemma_find_from_bound(s, p, 0);
    }
    lemma_quote_end_bound(s, 0, false);
    assert forall|o: char, c: char| match #[trigger] closing(s, o, c) {
        Some(k) => 0 <= k < s.len(),
        None => true,
    } by {
        lemma_close_bound(s, o, c, 0, 1, false, false);
    }
}

// ───────────────────────────── exec layer ─────────────────────────────

/// Relies on `String::push`: appends one character.
#[verifier::external_body]
pub(crate) fn push_char(s: &mut String, c: char)
    ensures
        final(s)@ == old(s)@.push(c),
{
    s.push(c)
}

/// The characters of a string slice, in order.
pub fn chars_of(s: &str) -> (r: Vec<char>)
    ensures
        r@ == s@,
{
    let mut out: Vec<char> = Vec::new();
    for c in it: s.chars()
        invariant
            out@ == it.seq().take(it.index() as int),
    {
        out.push(c);
    }
    out
}

/// A string holding exactly the given characters.
pub fn string_of(cs: &[char]) -> (r: String)
    ensures
        r@ == cs@,
{
    let mut out = String::new();
    let mut i: usize = 0;
    while i < cs.len()
        invariant
            i <= cs@.len(),
            out@ == cs@.take(i as int),
        decreases cs@.len() - i,
    {
        push_char(&mut out, cs[i]);
        proof {
            assert(cs@.take(i as int + 1) =~= cs@.take(i as int).push(cs@[i as int]));
        }
        i += 1;
    }
    proof {
        assert(cs@.take(cs@.len() as int) =~= cs@);
    }
    out
}

/// Copies a slice into a vector.
pub fn vec_of(cs: &[char]) -> (r: Vec<char>)
    ensures
        r@ == cs@,
{
    let mut out: Vec<char> = Vec::new();
    let mut i: usize = 0;
    while i < cs.len()
        invariant
            i <= cs@.len(),
            out@ == cs@.take(i as int),
        decreases cs@.len() - i,
    {
        out.push(cs[i]);
        proof {
            assert(cs@.take(i as int + 1) =~= cs@.take(i as int).push(cs@[i as int]));
        }
        i += 1;
    }
    proof {
        assert(cs@.take(cs@.len() as int) =~= cs@);
    }
    out
}

/// Whether two character slices are equal.
pub fn same_chars(a: &[char], b: &[char]) -> (r: bool)
    ensures
        r == (a@ == b@),
{
    if a.len() != b.len() {
        return false;
    }
    let mut i: usize = 0;
    while i < a.len()
        invariant
            i <= a@.len(),
            a@.len() == b@.len(),
            forall|j: int| 0 <= j < i ==> a@[j] == b@[j],
        decreases a@.len() - i,
    {
        if a[i] != b[i] {
            return false;
        }
        i += 1;
    }
    proof {
        assert(a@ =~= b@);
    }
    true
}

/// Whether `p` occurs in `s` at index `i`.
fn occurs_here(s: &[char], p: &[char], i: usize) -> (r: bool)
    requires
        i + p@.len() <= s@.len(),
    ensures
        r == occurs_at(s@, p@, i as int),
{
    let n = s.len();
    let mut j: usize = 0;
    while j < p.len()
        invariant
            n == s@.len(),
            j <= p@.len(),
            i + p@.len() <= s@.len(),
            forall|k: int| 0 <= k < j ==> s@[i + k] == p@[k],
        decreases p@.len() - j,
    {
        assert(i + j < s@.len());
        if s[i + j] != p[j] {
            proof {
                assert(s@.subrange(i as int, i + p@.len())[j as int] != p@[j as int]);
            }
            return false;
        }
        j += 1;
    }
    proof {
        assert(s@.subrange(i as int, i + p@.len()) =~= p@);
    }
    true
}

/// First index at which `p` occurs in `s`.
pub fn find_seq(s: &[char], p: &[char]) -> (r: Option<usize>)
    ensures
        pos_is(r, find(s@, p@)),
{
    if p.len() > s.len() {
        return None;
    }
    let last = s.len() - p.len();
    let mut i: usize = 0;
    loop
        invariant
            last == s@.len() - p@.len(),
            i <= last,
            find_from(s@, p@, i as int) == find(s@, p@),
        decreases last - i,
    {
        if occurs_here(s, p, i) {
            return Some(i);
        }
        if i == last {
            proof {
                assert(find_from(s@, p@, i + 1) is None);
            }
            return None;
        }
        i += 1;
    }
}

/// First index at which `c` occurs in `s`.
pub fn find_char(s: &[char], c: char) -> (r: Option<usize>)
    ensures
        pos_is(r, find(s@, seq![c])),
{
    let p = vec![c];
    proof {
        assert(p@ =~= seq![c]);
    }
    find_seq(s, p.as_slice())
}

/// Index of the unescaped `"` that closes a quoted body starting `s`.
pub fn find_closing_quote(s: &[char]) -> (r: Option<usize>)
    ensures
        pos_is(r, closing_quote(s@)),
{
    let mut escaped = false;
    let mut i: usize = 0;
    while i < s.len()
        invariant
            i <= s@.len(),
            quote_end_from(s@, i as int, escaped) == closing_quote(s@),
        decreases s@.len() - i,
    {
        let c = s[i];
        if escaped {
            escaped = false;
        } else if c == '\\' {
            escaped = true;
        } else if c == '"' {
            return Some(i);
        }
        i += 1;
    }
    None
}

/// Index of the delimiter that closes one open `open`, skipping quoted text.
pub fn find_closing(s: &[char], open: char, close: char) -> (r: Option<usize>)
    ensures
        pos_is(r, closing(s@, open, close)),
{
    let mut depth: u128 = 1;
    let mut in_str = false;
    let mut escaped = false;
    let mut i: usize = 0;
    while i < s.len()
        invariant
            i <= s@.len(),
            1 <= depth <= i + 1,
            close_from(s@, open, close, i as int, depth as nat, in_str, escaped) == closing(
                s@,
                open,
                close,
            ),
        decreases s@.len() - i,
    {
        let c = s[i];
        if escaped {
            escaped = false;
        } else if c == '\\' {
            escaped = true;
        } else if c == '"' {
            in_str = !in_str;
        } else if in_str {
        } else if c == open {
            depth += 1;
        } else if c == close {
            if depth <= 1 {
                return Some(i);
            }
            depth -= 1;
        }
        i += 1;
    }
    None
}

/// Closing `}` of one open `{`.
pub fn find_closing_brace(s: &[char]) -> (r: Option<usize>)
    ensures
        pos_is(r, closing(s@, '{', '}')),
{
    find_closing(s, '{', '}')
}

/// Closing `]` of one open `[`.
pub fn find_closing_bracket(s: &[char]) -> (r: Option<usize>)
    ensures
        pos_is(r, closing(s@, '[', ']')),
{
    find_closing(s, '[', ']')
}

/// Resolves the backslash escapes of a quoted value's body.
pub fn unescape(s: &[char]) -> (r: Vec<char>)
    ensures
        r@ == unescaped(s@),
{
    let n = s.len();
    let mut out: Vec<char> = Vec::new();
    let mut i: usize = 0;
    proof {
        assert(s@.subrange(0, n as int) =~= s@);
        assert(out@ + unescaped(s@) =~= unescaped(s@));
    }
    while i < n
        invariant
            n == s@.len(),
            i <= n,
            out@ + unescaped(s@.subrange(i as int, n as int)) == unescaped(s@),
        decreases n - i,
    {
        let ghost rest = s@.subrange(i as int, n as int);
        let ghost before = out@;
        if s[i] == '\\' {
            if i + 1 == n {
                out.push('\\');
                proof {
                    assert(s@.subrange(n as int, n as int) =~= Seq::<char>::empty());
                    assert(unescaped(Seq::<char>::empty()) =~= Seq::<char>::empty());
                    assert(out@ + unescaped(s@.subrange(n as int, n as int)) =~= before
                        + unescaped(rest));
                }
                i = n;
            } else {
                let c = s[i + 1];
                if c == '"' {
                    out.push('"');
                } else if c == 'n' {
                    out.push('\n');
                } else if c == 't' {
                    out.push('\t');
                } else if c == '\\' {
                    out.push('\\');
                } else {
                    out.push('\\');
                    out.push(c);
                }
                proof {
                    assert(out@ =~= before + escape_meaning(c));
                    assert(rest.subrange(2, rest.len() as int) =~= s@.subrange(i + 2, n as int));
                    assert(out@ + unescaped(s@.subrange(i + 2, n as int)) =~= before
                        + unescaped(rest));
                }
                i += 2;
            }
        } else {
            out.push(s[i]);
            proof {
                assert(rest.subrange(1, rest.len() as int) =~= s@.subrange(i + 1, n as int));
                assert(out@ + unescaped(s@.subrange(i + 1, n as int)) =~= before
                    + unescaped(rest));
            }
            i += 1;
        }
    }
    proof {
        assert(s@.subrange(n as int, n as int) =~= Seq::<char>::empty());
        assert(unescaped(Seq::<char>::empty()) =~= Seq::<char>::empty());
        assert(out@ =~= out@ + unescaped(s@.subrange(n as int, n as int)));
    }
    out
}

/// Whether `c` is white space.
pub fn is_space_char(c: char) -> (r: bool)
    ensures
        r == is_space(c),
{
    ('\u{9}' <= c && c <= '\u{d}') || c == ' ' || c == '\u{85}' || c == '\u{a0}' || c
        == '\u{1680}' || ('\u{2000}' <= c && c <= '\u{200a}') || c == '\u{2028}' || c
        == '\u{2029}' || c == '\u{202f}' || c == '\u{205f}' || c == '\u{3000}'
}

/// `s` without white space at either end.
pub fn trim(s: &[char]) -> (r: &[char])
    ensures
        r@ == trimmed(s@),
{
    let n = s.len();
    let mut a: usize = 0;
    proof {
        assert(s@.subrange(0, n as int) =~= s@);
    }
    while a < n && is_space_char(s[a])
        invariant
            n == s@.len(),
            a <= n,
            lead_space(s@) == a + lead_space(s@.subrange(a as int, n as int)),
        decreases n - a,
    {
        proof {
            let rest = s@.subrange(a as int, n as int);
            assert(rest.subrange(1, rest.len() as int) =~= s@.subrange(a + 1, n as int));
        }
        a += 1;
    }
    let t = &s[a..n];
    let m = t.len();
    let mut b: usize = m;
    proof {
        assert(t@.subrange(0, m as int) =~= t@);
    }
    while b > 0 && is_space_char(t[b - 1])
        invariant
            m == t@.len(),
            b <= m,
            trail_space(t@) == (m - b) + trail_space(t@.subrange(0, b as int)),
        decreases b,
    {
        proof {
            let front = t@.subrange(0, b as int);
            assert(front.drop_last() =~= t@.subrange(0, b - 1));
        }
        b -= 1;
    }
    &t[0..b]
}

/// The text of a stream record's payload: trimmed, unquoted and unescaped.
pub fn unquote(s: &[char]) -> (r: Vec<char>)
    ensures
        r@ == unquoted(s@),
{
    let t = trim(s);
    let n = t.len();
    if n >= 2 && t[0] == '"' && t[n - 1] == '"' {
        unescape(&t[1..n - 1])
    } else if n >= 1 && t[0] == '"' {
        unescape(&t[1..n])
    } else {
        vec_of(t)
    }
}

/// Value of a digit character in radix 10 or 16.
fn digit_of(c: char, radix: u64) -> (r: Option<u64>)
    requires
        radix == 10 || radix == 16,
    ensures
        match r {
            Some(v) => digit_value(c, radix as nat) == Some(v as nat),
            None => digit_value(c, radix as nat) is None,
        },
{
    let v: u64 = if '0' <= c && c <= '9' {
        (c as u32 - '0' as u32) as u64
    } else if 'a' <= c && c <= 'z' {
        (c as u32 - 'a' as u32 + 10) as u64
    } else if 'A' <= c && c <= 'Z' {
        (c as u32 - 'A' as u32 + 10) as u64
    } else {
        radix
    };
    if v < radix {
        Some(v)
    } else {
        None
    }
}

/// A digit string's value never falls below that of its prefixes.
proof fn lemma_value_prefix(s: Seq<char>, radix: nat, k: int)
    requires
        radix >= 1,
        0 <= k <= s.len(),
    ensures
        digits_value(s.take(k), radix) <= digits_value(s, radix),
    decreases s.len(),
{
    if k == s.len() {
        assert(s.take(k) =~= s);
    } else {
        lemma_value_prefix(s.drop_last(), radix, k);
        assert(s.drop_last().take(k) =~= s.take(k));
        let v = digits_value(s.drop_last(), radix);
        assert(v * radix >= v) by (nonlinear_arith)
            requires
                radix >= 1,
        ;
    }
}

/// Reads an unsigned integer of at most `max` in radix 10 or 16.
pub fn parse_number(s: &[char], radix: u64, max: u64) -> (r: Option<u64>)
    requires
        radix == 10 || radix == 16,
    ensures
        match r {
            Some(v) => parse_unsigned(s@, radix as nat, max as nat) == Some(v as nat),
            None => parse_unsigned(s@, radix as nat, max as nat) is None,
        },
{
    let n = s.len();
    if n == 0 {
        return None;
    }
    let d: &[char] = if n > 1 && s[0] == '+' {
        &s[1..n]
    } else {
        s
    };
    proof {
        if n > 1 && s@[0] == '+' {
            assert(d@ == s@.subrange(1, s@.len() as int));
        } else {
            assert(d@ == s@);
        }
    }
    let m = d.len();
    let mut acc: u64 = 0;
    let mut i: usize = 0;
    while i < m
        invariant
            m == d@.len(),
            i <= m,
            s@.len() > 0,
            d@ == (if s@.len() > 1 && s@[0] == '+' {
                s@.subrange(1, s@.len() as int)
            } else {
                s@
            }),
            radix == 10 || radix == 16,
            acc as nat == digits_value(d@.take(i as int), radix as nat),
            acc <= max,
            all_digits(d@.take(i as int), radix as nat),
        decreases m - i,
    {
        let ghost pre = d@.take(i as int);
        let ghost next = d@.take(i + 1);
        proof {
            assert(next.drop_last() =~= pre);
            assert(next.last() == d@[i as int]);
        }
        match digit_of(d[i], radix) {
            None => {
                proof {
                    assert(digit_value(d@[i as int], radix as nat) is None);
                    assert(!all_digits(d@, radix as nat));
                }
                return None;
            },
            Some(v) => {
                if v > max || acc > (max - v) / radix {
                    proof {
                        assert(digits_value(next, radix as nat) == acc * radix + v);
                        assert(acc * radix + v > max) by (nonlinear_arith)
                            requires
                                v > max || acc > (max - v) as int / radix as int,
                                radix > 0,
                                acc >= 0,
                        ;
                        lemma_value_prefix(d@, radix as nat, i + 1);
                    }
                    return None;
                }
                proof {
                    assert(acc * radix + v <= max) by (nonlinear_arith)
                        requires
                            v <= max,
                            acc <= (max - v) as int / radix as int,
                            radix > 0,
                    ;
                    assert(all_digits(next, radix as nat)) by {
                        assert forall|j: int| 0 <= j < next.len() implies (#[trigger] digit_value(
                            next[j],
                            radix as nat,
                        )) is Some by {
                            if j < i {
                                assert(next[j] == pre[j]);
                            }
                        }
                    }
                }
                acc = acc * radix + v;
                i += 1;
            },
        }
    }
    proof {
        assert(d@.take(m as int) =~= d@);
    }
    Some(acc)
}

/// Decimal reading of a `u32`.
pub fn parse_decimal(s: &[char]) -> (r: Option<u32>)
    ensures
        r == parse_u32(s@),
{
    match parse_number(s, 10, u32::MAX as u64) {
        Some(v) => Some(v as u32),
        None => None,
    }
}

/// An address as the debugger prints it; zero where it does not read.
pub fn parse_address(s: &[char]) -> (r: u64)
    ensures
        r == parse_addr(s@),
{
    let mut t = s;
    while t.len() >= 2 && t[0] == '0' && t[1] == 'x'
        invariant
            strip_hex_prefix(t@) == strip_hex_prefix(s@),
        decreases t@.len(),
    {
        t = &t[2..t.len()];
    }
    match parse_number(t, 16, u64::MAX) {
        Some(v) => v,
        None => 0,
    }
}

/// The character of a decimal digit.
fn digit_to_char(d: u64) -> (c: char)
    ensures
        c == digit_char(d as nat),
{
    if d == 0 {
        '0'
    } else if d == 1 {
        '1'
    } else if d == 2 {
        '2'
    } else if d == 3 {
        '3'
    } else if d == 4 {
        '4'
    } else if d == 5 {
        '5'
    } else if d == 6 {
        '6'
    } else if d == 7 {
        '7'
    } else if d == 8 {
        '8'
    } else {
        '9'
    }
}

/// Decimal digits of `n`.
pub fn decimal_chars(n: u64) -> (r: Vec<char>)
    ensures
        r@ == decimal(n as nat),
    decreases n,
{
    if n < 10 {
        vec![digit_to_char(n)]
    } else {
        let mut v = decimal_chars(n / 10);
        v.push(digit_to_char(n % 10));
        v
    }
}

/// Appends all of `t` to `v`.
pub fn push_all(v: &mut Vec<char>, t: &[char])
    ensures
        final(v)@ == old(v)@ + t@,
{
    let n = t.len();
    let mut i: usize = 0;
    while i < n
        invariant
            n == t@.len(),
            i <= n,
            v@ == old(v)@ + t@.take(i as int),
        decreases n - i,
    {
        v.push(t[i]);
        proof {
            assert(t@.take(i + 1) =~= t@.take(i as int).push(t@[i as int]));
        }
        i += 1;
    }
    proof {
        assert(t@.take(n as int) =~= t@);
    }
}

} // verus!
