//! Character-level text helpers shared by the protocol, the Lua renderer
//! and the bar renderer: decimal rendering, whitespace classification,
//! word splitting and trimming, all specified over `Seq<char>`.

use vstd::prelude::*;
use vstd::string::*;

verus! {

/// Appending one character to a `String` extends its character sequence
/// by exactly that character (std documents `push` as "Appends the given
/// char to the end of this String").
pub assume_specification[ String::push ](string: &mut String, ch: char)
    ensures
        final(string)@ == old(string)@.push(ch),
;

// ---------------------------------------------------------------------
// Decimal rendering
// ---------------------------------------------------------------------

/// The ASCII digit for `d` (`0 <= d < 10`).
pub open spec fn digit_char(d: int) -> char {
    if d == 0 {
        '0'
    } else if d == 1 {
        '1'
    } else if d == 2 {
        '2'
    } else if d == 3 {
        '3'
    } else if d == 4 {
        '4'
    } else if d == 5 {
        '5'
    } else if d == 6 {
        '6'
    } else if d == 7 {
        '7'
    } else if d == 8 {
        '8'
    } else {
        '9'
    }
}

/// Shortest decimal rendering of a natural number (no sign, no leading
/// zeros except for zero itself).
pub open spec fn decimal(n: nat) -> Seq<char>
    decreases n,
{
    if n < 10 {
        seq![digit_char(n as int)]
    } else {
        decimal(n / 10).push(digit_char((n % 10) as int))
    }
}

/// Decimal rendering of an integer, with a leading `-` when negative.
pub open spec fn signed_decimal(n: int) -> Seq<char> {
    if n < 0 {
        seq!['-'] + decimal((-n) as nat)
    } else {
        decimal(n as nat)
    }
}

fn digit(d: u64) -> (c: char)
    requires
        d < 10,
    ensures
        c == digit_char(d as int),
{
    if d == 0 {
        '0'
    } else if d == 1 {
        '1'
    } else if d == 2 {
        '2'
    } else if d == 3 {
        '3'
    } else if d == 4 {
        '4'
    } else if d == 5 {
        '5'
    } else if d == 6 {
        '6'
    } else if d == 7 {
        '7'
    } else if d == 8 {
        '8'
    } else {
        '9'
    }
}

/// Appends the decimal rendering of `n`.
pub fn push_decimal(s: &mut String, n: u64)
    ensures
        final(s)@ == old(s)@ + decimal(n as nat),
    decreases n,
{
    if n >= 10 {
        push_decimal(s, n / 10);
    }
    let c = digit(n % 10);
    s.push(c);
    proof {
        if n < 10 {
            assert(old(s)@.push(c) =~= old(s)@ + decimal(n as nat));
        } else {
            assert((old(s)@ + decimal((n / 10) as nat)).push(c) =~= old(s)@ + decimal(
                n as nat,
            ));
        }
    }
}

/// Appends the signed decimal rendering of `n`.
pub fn push_i64(s: &mut String, n: i64)
    ensures
        final(s)@ == old(s)@ + signed_decimal(n as int),
{
    if n < 0 {
        s.push('-');
        let m: u64 = (0i128 - (n as i128)) as u64;
        push_decimal(s, m);
        assert(s@ =~= old(s)@ + signed_decimal(n as int));
    } else {
        push_decimal(s, n as u64);
    }
}

/// The decimal rendering of `n` as a fresh string.
pub fn i64_text(n: i64) -> (r: String)
    ensures
        r@ == signed_decimal(n as int),
{
    let mut s = String::new();
    push_i64(&mut s, n);
    assert(s@ =~= signed_decimal(n as int));
    s
}

// ---------------------------------------------------------------------
// Decimal parsing (std's unsigned `from_str` grammar)
// ---------------------------------------------------------------------

pub open spec fn is_digit(c: char) -> bool {
    '0' as u32 <= c as u32 && c as u32 <= '9' as u32
}

pub open spec fn all_digits(s: Seq<char>) -> bool {
    forall|i: int| 0 <= i < s.len() ==> is_digit(#[trigger] s[i])
}

/// The value of a string of ASCII digits, most significant first.
pub open spec fn digits_value(s: Seq<char>) -> nat
    decreases s.len(),
{
    if s.len() == 0 {
        0
    } else {
        digits_value(s.drop_last()) * 10 + ((s.last() as u32) - ('0' as u32)) as nat
    }
}

/// The number an unsigned integer parse of `s` yields, ignoring the width
/// limit: an optional `+` followed by one or more ASCII digits.
pub open spec fn unsigned_value(s: Seq<char>) -> Option<nat> {
    let body = if s.len() > 0 && s[0] == '+' {
        s.drop_first()
    } else {
        s
    };
    if body.len() > 0 && all_digits(body) {
        Some(digits_value(body))
    } else {
        None
    }
}

/// Parses `s` as std parses an unsigned number, answering `Some(v)` when
/// the text denotes a value `v <= limit` and `None` otherwise (malformed,
/// or a value above `limit`, which includes every overflow).
pub fn parse_bounded(s: &str, limit: u64) -> (r: Option<u64>)
    requires
        limit < 1000,
    ensures
        r == (match unsigned_value(s@) {
            Some(v) => if v <= limit {
                Some(v as u64)
            } else {
                None
            },
            None => None,
        }),
{
    let chars = chars_of(s);
    let n = chars.len();
    let mut start: usize = 0;
    if n > 0 && chars[0] == '+' {
        start = 1;
    }
    let ghost body = if s@.len() > 0 && s@[0] == '+' {
        s@.drop_first()
    } else {
        s@
    };
    assert(body =~= chars@.subrange(start as int, n as int));
    if start >= n {
        return None;
    }
    // `acc` is exact while it stays within the limit; once it exceeds the
    // limit it is parked at `limit + 1`, since the value only grows.
    let mut acc: u64 = 0;
    let mut i: usize = start;
    while i < n
        invariant
            start <= i <= n,
            n == chars@.len(),
            chars@ == s@,
            limit < 1000,
            body =~= chars@.subrange(start as int, n as int),
            unsigned_value(s@) == (if body.len() > 0 && all_digits(body) {
                Some(digits_value(body))
            } else {
                None
            }),
            all_digits(chars@.subrange(start as int, i as int)),
            acc <= limit + 1,
            digits_value(chars@.subrange(start as int, i as int)) <= limit ==> acc
                == digits_value(chars@.subrange(start as int, i as int)),
            digits_value(chars@.subrange(start as int, i as int)) > limit ==> acc == limit
                + 1,
        decreases n - i,
    {
        let c = chars[i];
        if !((c as u32) >= ('0' as u32) && (c as u32) <= ('9' as u32)) {
            proof {
                assert(body[i - start] == c);
                assert(!is_digit(body[i - start]));
                assert(!all_digits(body));
            }
            return None;
        }
        let d: u64 = ((c as u32) - ('0' as u32)) as u64;
        let ghost prefix = chars@.subrange(start as int, i as int);
        let ghost next = chars@.subrange(start as int, i + 1);
        assert(next.drop_last() =~= prefix);
        assert(next.last() == c);
        assert(digits_value(next) == digits_value(prefix) * 10 + d);
        if acc > limit {
            proof {
                assert(digits_value(prefix) * 10 + d > limit) by (nonlinear_arith)
                    requires
                        digits_value(prefix) > limit,
                ;
            }
        } else {
            let v = acc * 10 + d;
            if v > limit {
                acc = limit + 1;
            } else {
                acc = v;
            }
        }
        assert(all_digits(next)) by {
            assert forall|j: int| 0 <= j < next.len() implies is_digit(#[trigger] next[j]) by {
                if j < prefix.len() {
                    assert(next[j] == prefix[j]);
                }
            }
        }
        i = i + 1;
    }
    assert(chars@.subrange(start as int, n as int) =~= body);
    if acc > limit {
        None
    } else {
        Some(acc)
    }
}

// ---------------------------------------------------------------------
// Characters of a string
// ---------------------------------------------------------------------

/// The characters of `s`, in order.
pub fn chars_of(s: &str) -> (v: Vec<char>)
    ensures
        v@ == s@,
{
    let n = s.unicode_len();
    let mut v: Vec<char> = Vec::new();
    let mut i: usize = 0;
    while i < n
        invariant
            i <= n,
            n == s@.len(),
            v@ =~= s@.take(i as int),
        decreases n - i,
    {
        let c = s.get_char(i);
        v.push(c);
        i = i + 1;
        assert(v@ =~= s@.take(i as int));
    }
    assert(s@.take(n as int) =~= s@);
    v
}

/// Whether a character sequence equals a string's characters.
pub fn chars_eq_str(w: &Vec<char>, lit: &str) -> (b: bool)
    ensures
        b == (w@ == lit@),
{
    let n = lit.unicode_len();
    if w.len() != n {
        return false;
    }
    let mut i: usize = 0;
    while i < n
        invariant
            i <= n,
            n == lit@.len(),
            w@.len() == n,
            forall|j: int| 0 <= j < i ==> w@[j] == lit@[j],
        decreases n - i,
    {
        if w[i] != lit.get_char(i) {
            return false;
        }
        i = i + 1;
    }
    assert(w@ =~= lit@);
    true
}

/// A string made of the given characters.
pub fn string_of_chars(v: &Vec<char>) -> (s: String)
    ensures
        s@ == v@,
{
    let mut s = String::new();
    let mut i: usize = 0;
    while i < v.len()
        invariant
            i <= v@.len(),
            s@ =~= v@.take(i as int),
        decreases v@.len() - i,
    {
        s.push(v[i]);
        i = i + 1;
        assert(s@ =~= v@.take(i as int));
    }
    assert(v@.take(v@.len() as int) =~= v@);
    s
}

// ---------------------------------------------------------------------
// Whitespace, words, trimming
// ---------------------------------------------------------------------

/// Unicode `White_Space`: the characters std's `char::is_whitespace`
/// accepts, which drive `split_whitespace` and `trim`.
pub open spec fn is_ws(c: char) -> bool {
    let x = c as u32;
    (0x9 <= x && x <= 0xd) || x == 0x20 || x == 0x85 || x == 0xa0 || x == 0x1680 || (0x2000
        <= x && x <= 0x200a) || x == 0x2028 || x == 0x2029 || x == 0x202f || x == 0x205f || x
        == 0x3000
}

pub fn char_is_ws(c: char) -> (b: bool)
    ensures
        b == is_ws(c),
{
    let x = c as u32;
    (0x9 <= x && x <= 0xd) || x == 0x20 || x == 0x85 || x == 0xa0 || x == 0x1680 || (0x2000
        <= x && x <= 0x200a) || x == 0x2028 || x == 0x2029 || x == 0x202f || x == 0x205f || x
        == 0x3000
}

pub open spec fn no_ws(s: Seq<char>) -> bool {
    forall|i: int| 0 <= i < s.len() ==> !is_ws(#[trigger] s[i])
}

/// Length of the leading run of non-whitespace characters.
pub open spec fn token_len(s: Seq<char>) -> nat
    decreases s.len(),
{
    if s.len() == 0 || is_ws(s[0]) {
        0
    } else {
        1 + token_len(s.drop_first())
    }
}

pub proof fn lemma_token_len_bound(s: Seq<char>)
    ensures
        token_len(s) <= s.len(),
        s.len() > 0 && !is_ws(s[0]) ==> token_len(s) >= 1,
    decreases s.len(),
{
    if s.len() > 0 && !is_ws(s[0]) {
        lemma_token_len_bound(s.drop_first());
    }
}

/// The maximal runs of non-whitespace characters, left to right: what
/// `split_whitespace` yields.
pub open spec fn words(s: Seq<char>) -> Seq<Seq<char>>
    decreases s.len(),
{
    if s.len() == 0 {
        seq![]
    } else if is_ws(s[0]) {
        words(s.drop_first())
    } else {
        let n = token_len(s);
        proof {
            lemma_token_len_bound(s);
        }
        seq![s.take(n as int)] + words(s.skip(n as int))
    }
}

proof fn lemma_token_run(s: Seq<char>, i: int, j: int)
    requires
        0 <= i <= j <= s.len(),
        forall|k: int| i <= k < j ==> !is_ws(#[trigger] s[k]),
        j == s.len() || is_ws(s[j]),
    ensures
        token_len(s.skip(i)) == j - i,
    decreases j - i,
{
    if i < j {
        lemma_token_run(s, i + 1, j);
        assert(s.skip(i).drop_first() =~= s.skip(i + 1));
    }
}

/// A sequence made only of non-whitespace characters, followed by either
/// nothing or whitespace, is one word followed by the words of the rest.
pub proof fn lemma_words_token_then(t: Seq<char>, rest: Seq<char>)
    requires
        t.len() > 0,
        no_ws(t),
        rest.len() == 0 || is_ws(rest[0]),
    ensures
        words(t + rest) == seq![t] + words(rest),
{
    let s = t + rest;
    lemma_token_run(s, 0, t.len() as int);
    assert(s.skip(0) =~= s);
    assert(s.take(t.len() as int) =~= t);
    assert(s.skip(t.len() as int) =~= rest);
}

/// Leading whitespace does not change the words.
pub proof fn lemma_words_ws_then(c: char, rest: Seq<char>)
    requires
        is_ws(c),
    ensures
        words(seq![c] + rest) == words(rest),
{
    assert((seq![c] + rest).drop_first() =~= rest);
}

/// The words of `t` alone, for a non-empty whitespace-free `t`.
pub proof fn lemma_words_single(t: Seq<char>)
    requires
        t.len() > 0,
        no_ws(t),
    ensures
        words(t) == seq![t],
{
    lemma_words_token_then(t, seq![]);
    assert(t + seq![] =~= t);
    assert(words(Seq::<char>::empty()) =~= Seq::<Seq<char>>::empty());
    assert(seq![t] + Seq::<Seq<char>>::empty() =~= seq![t]);
}

/// The words of `a`, a space, then `b`, for non-empty whitespace-free
/// `a` and `b`.
pub proof fn lemma_words_pair(a: Seq<char>, b: Seq<char>)
    requires
        a.len() > 0,
        b.len() > 0,
        no_ws(a),
        no_ws(b),
    ensures
        words(a + seq![' '] + b) == seq![a, b],
{
    lemma_words_token_then(a, seq![' '] + b);
    assert(a + seq![' '] + b =~= a + (seq![' '] + b));
    lemma_words_ws_then(' ', b);
    lemma_words_single(b);
    assert(seq![a] + seq![b] =~= seq![a, b]);
}

pub open spec fn views_of(v: Seq<Vec<char>>) -> Seq<Seq<char>> {
    v.map_values(|w: Vec<char>| w@)
}

/// Splits `s` into its words.
pub fn split_words(s: &Vec<char>) -> (r: Vec<Vec<char>>)
    ensures
        views_of(r@) == words(s@),
{
    let n = s.len();
    let mut out: Vec<Vec<char>> = Vec::new();
    let mut i: usize = 0;
    assert(s@.skip(0) =~= s@);
    while i < n
        invariant
            i <= n,
            n == s@.len(),
            words(s@) == views_of(out@) + words(s@.skip(i as int)),
        decreases n - i,
    {
        if char_is_ws(s[i]) {
            assert(s@.skip(i as int).drop_first() =~= s@.skip(i + 1));
            i = i + 1;
        } else {
            let mut j: usize = i;
            let mut word: Vec<char> = Vec::new();
            while j < n && !char_is_ws(s[j])
                invariant
                    i <= j <= n,
                    n == s@.len(),
                    forall|k: int| i <= k < j ==> !is_ws(#[trigger] s@[k]),
                    word@ =~= s@.subrange(i as int, j as int),
                decreases n - j,
            {
                word.push(s[j]);
                j = j + 1;
                assert(word@ =~= s@.subrange(i as int, j as int));
            }
            proof {
                lemma_token_run(s@, i as int, j as int);
                let tail = s@.skip(i as int);
                assert(tail.take((j - i) as int) =~= s@.subrange(i as int, j as int));
                assert(tail.skip((j - i) as int) =~= s@.skip(j as int));
                assert(words(tail) == seq![word@] + words(s@.skip(j as int)));
            }
            let ghost before = out@;
            out.push(word);
            assert(views_of(out@) =~= views_of(before) + seq![s@.subrange(i as int, j as int)]);
            assert(views_of(out@) + words(s@.skip(j as int)) =~= views_of(before) + (seq![
                s@.subrange(i as int, j as int),
            ] + words(s@.skip(j as int))));
            i = j;
        }
    }
    assert(words(s@.skip(n as int)) =~= Seq::<Seq<char>>::empty()) by {
        assert(s@.skip(n as int).len() == 0);
    }
    assert(views_of(out@) + Seq::<Seq<char>>::empty() =~= views_of(out@));
    out
}

/// Number of leading whitespace characters.
pub open spec fn lead_ws(s: Seq<char>) -> nat
    decreases s.len(),
{
    if s.len() > 0 && is_ws(s[0]) {
        1 + lead_ws(s.drop_first())
    } else {
        0
    }
}

/// Number of trailing whitespace characters.
pub open spec fn trail_ws(s: Seq<char>) -> nat
    decreases s.len(),
{
    if s.len() > 0 && is_ws(s.last()) {
        1 + trail_ws(s.drop_last())
    } else {
        0
    }
}

/// `s` without trailing whitespace (std's `trim_end`).
pub open spec fn trim_end(s: Seq<char>) -> Seq<char> {
    s.take(s.len() - trail_ws(s))
}

/// `s` without leading and trailing whitespace (std's `trim`).
pub open spec fn trim(s: Seq<char>) -> Seq<char> {
    let t = trim_end(s);
    t.skip(lead_ws(t) as int)
}

proof fn lemma_trail_ws_bound(s: Seq<char>)
    ensures
        trail_ws(s) <= s.len(),
    decreases s.len(),
{
    if s.len() > 0 && is_ws(s.last()) {
        lemma_trail_ws_bound(s.drop_last());
    }
}

proof fn lemma_lead_ws_bound(s: Seq<char>)
    ensures
        lead_ws(s) <= s.len(),
    decreases s.len(),
{
    if s.len() > 0 && is_ws(s[0]) {
        lemma_lead_ws_bound(s.drop_first());
    }
}

/// Characters of `s` without trailing whitespace.
pub fn trim_end_chars(s: &Vec<char>) -> (r: Vec<char>)
    ensures
        r@ == trim_end(s@),
{
    let mut end: usize = s.len();
    proof {
        lemma_trail_ws_bound(s@);
        assert(s@.take(end as int) =~= s@);
    }
    while end > 0 && char_is_ws(s[end - 1])
        invariant
            end <= s@.len(),
            trail_ws(s@) <= s@.len(),
            trail_ws(s@) == (s@.len() - end) + trail_ws(s@.take(end as int)),
        decreases end,
    {
        let ghost t = s@.take(end as int);
        assert(t.drop_last() =~= s@.take(end - 1));
        end = end - 1;
    }
    let ghost t = s@.take(end as int);
    assert(trail_ws(t) == 0);
    let mut r: Vec<char> = Vec::new();
    let mut i: usize = 0;
    while i < end
        invariant
            i <= end <= s@.len(),
            r@ =~= s@.take(i as int),
        decreases end - i,
    {
        r.push(s[i]);
        i = i + 1;
        assert(r@ =~= s@.take(i as int));
    }
    r
}

/// Characters of `s` without leading and trailing whitespace.
pub fn trim_chars(s: &Vec<char>) -> (r: Vec<char>)
    ensures
        r@ == trim(s@),
{
    let t = trim_end_chars(s);
    let mut start: usize = 0;
    proof {
        lemma_lead_ws_bound(t@);
        assert(t@.skip(0) =~= t@);
    }
    while start < t.len() && char_is_ws(t[start])
        invariant
            start <= t@.len(),
            lead_ws(t@) == start + lead_ws(t@.skip(start as int)),
        decreases t@.len() - start,
    {
        assert(t@.skip(start as int).drop_first() =~= t@.skip(start + 1));
        start = start + 1;
    }
    assert(lead_ws(t@.skip(start as int)) == 0);
    let mut r: Vec<char> = Vec::new();
    let mut i: usize = start;
    while i < t.len()
        invariant
            start <= i <= t@.len(),
            r@ =~= t@.subrange(start as int, i as int),
        decreases t@.len() - i,
    {
        r.push(t[i]);
        i = i + 1;
        assert(r@ =~= t@.subrange(start as int, i as int));
    }
    assert(r@ =~= t@.skip(start as int));
    r
}


// ---------------------------------------------------------------------
// Joining
// ---------------------------------------------------------------------

/// The parts in order, with `sep` between consecutive parts.
pub open spec fn join(parts: Seq<Seq<char>>, sep: Seq<char>) -> Seq<char>
    decreases parts.len(),
{
    if parts.len() == 0 {
        seq![]
    } else if parts.len() == 1 {
        parts[0]
    } else {
        join(parts.drop_last(), sep) + sep + parts.last()
    }
}

/// Joining one more part appends the separator and the part.
pub proof fn lemma_join_push(parts: Seq<Seq<char>>, sep: Seq<char>, p: Seq<char>)
    ensures
        join(parts.push(p), sep) == if parts.len() == 0 {
            p
        } else {
            join(parts, sep) + sep + p
        },
{
    assert(parts.push(p).drop_last() =~= parts);
    if parts.len() == 0 {
        assert(parts.push(p)[0] == p);
    }
}

/// No character of `s` is a line break.
pub open spec fn single_line(s: Seq<char>) -> bool {
    forall|i: int| 0 <= i < s.len() ==> s[i] != '\n'
}

pub proof fn lemma_single_line_concat(a: Seq<char>, b: Seq<char>)
    requires
        single_line(a),
        single_line(b),
    ensures
        single_line(a + b),
{
    assert forall|i: int| 0 <= i < (a + b).len() implies (a + b)[i] != '\n' by {
        if i < a.len() {
            assert((a + b)[i] == a[i]);
        } else {
            assert((a + b)[i] == b[i - a.len()]);
        }
    }
}


/// How one character is written on a reply line: a line feed as `\n`, a
/// carriage return as `\r`, anything else as itself.
pub open spec fn break_escape(c: char) -> Seq<char> {
    if c == '\n' {
        seq!['\\', 'n']
    } else if c == '\r' {
        seq!['\\', 'r']
    } else {
        seq![c]
    }
}

/// `s` with its line breaks written as two-character escapes, so that it
/// fits on one line.
pub open spec fn escape_breaks(s: Seq<char>) -> Seq<char>
    decreases s.len(),
{
    if s.len() == 0 {
        seq![]
    } else {
        escape_breaks(s.drop_last()) + break_escape(s.last())
    }
}

/// Appends `t` to `s` with its line breaks escaped.
pub fn push_escaped_breaks(s: &mut String, t: &str)
    ensures
        final(s)@ == old(s)@ + escape_breaks(t@),
{
    let n = t.unicode_len();
    let ghost start = s@;
    let mut i: usize = 0;
    while i < n
        invariant
            i <= n,
            n == t@.len(),
            s@ == start + escape_breaks(t@.take(i as int)),
        decreases n - i,
    {
        let c = t.get_char(i);
        proof {
            let p = t@.take(i + 1);
            assert(p.drop_last() =~= t@.take(i as int));
            assert(p.last() == c);
        }
        if c == '\n' {
            s.push('\\');
            s.push('n');
        } else if c == '\r' {
            s.push('\\');
            s.push('r');
        } else {
            s.push(c);
        }
        i = i + 1;
        assert(s@ =~= start + escape_breaks(t@.take(i as int)));
    }
    assert(t@.take(n as int) =~= t@);
}

/// Escaped text holds no line feed.
pub proof fn lemma_escape_breaks_single_line(s: Seq<char>)
    ensures
        single_line(escape_breaks(s)),
    decreases s.len(),
{
    if s.len() > 0 {
        lemma_escape_breaks_single_line(s.drop_last());
        let e = break_escape(s.last());
        assert(single_line(e));
        lemma_single_line_concat(escape_breaks(s.drop_last()), e);
    }
}

/// Text without line feeds or carriage returns is left as it is.
pub proof fn lemma_escape_breaks_plain(s: Seq<char>)
    requires
        forall|i: int| 0 <= i < s.len() ==> s[i] != '\n' && s[i] != '\r',
    ensures
        escape_breaks(s) == s,
    decreases s.len(),
{
    if s.len() > 0 {
        lemma_escape_breaks_plain(s.drop_last());
        assert(s.drop_last().push(s.last()) =~= s);
    }
}

} // verus!
