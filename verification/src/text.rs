use vstd::prelude::*;

verus! {

/// Appends one character to a string.
///
/// Calls `String::push`; the contract claims that the character lands at
/// the end and that nothing else changes.
#[verifier::external_body]
pub(crate) fn push_char(s: &mut String, c: char)
    ensures
        final(s)@ == old(s)@.push(c),
{
    s.push(c);
}

/// The characters of a string slice, in order.
pub fn chars_of(s: &str) -> (v: Vec<char>)
    ensures
        v@ == s@,
{
    let n = s.unicode_len();
    let mut v: Vec<char> = Vec::new();
    let mut i: usize = 0;
    while i < n
        invariant
            n == s@.len(),
            i <= n,
            v@ == s@.subrange(0, i as int),
        decreases n - i,
    {
        v.push(s.get_char(i));
        i = i + 1;
    }
    v
}

// ---------------------------------------------------------------------
// Numbers
// ---------------------------------------------------------------------

/// The lower-case digit for `d` (meaningful for `d < 16`).
pub open spec fn digit_char(d: nat) -> char {
    if d == 0 { '0' }
    else if d == 1 { '1' }
    else if d == 2 { '2' }
    else if d == 3 { '3' }
    else if d == 4 { '4' }
    else if d == 5 { '5' }
    else if d == 6 { '6' }
    else if d == 7 { '7' }
    else if d == 8 { '8' }
    else if d == 9 { '9' }
    else if d == 10 { 'a' }
    else if d == 11 { 'b' }
    else if d == 12 { 'c' }
    else if d == 13 { 'd' }
    else if d == 14 { 'e' }
    else { 'f' }
}

/// `n` written in base `base` (2 to 16), most significant digit first,
/// without leading zeros (zero is written `0`).
pub open spec fn num_text(n: nat, base: nat) -> Seq<char>
    decreases n,
{
    if base < 2 || n < base {
        seq![digit_char(n)]
    } else {
        proof {
            lemma_div_decreases(n, base);
        }
        num_text(n / base, base).push(digit_char(n % base))
    }
}

pub proof fn lemma_div_decreases(n: nat, base: nat)
    requires
        2 <= base <= n,
    ensures
        n / base < n,
{
    assert(n / base < n) by (nonlinear_arith)
        requires
            2 <= base <= n,
    ;
}

/// The `width` lowest binary digits of `x`, most significant first.
pub open spec fn bits_text(x: nat, width: nat) -> Seq<char>
    decreases width,
{
    if width == 0 {
        Seq::empty()
    } else {
        bits_text(x / 2, (width - 1) as nat).push(digit_char(x % 2))
    }
}

/// A signed integer in decimal, as `{}` and `{:?}` print it.
pub open spec fn int_text(x: int) -> Seq<char> {
    if x < 0 {
        seq!['-'] + num_text((-x) as nat, 10)
    } else {
        num_text(x as nat, 10)
    }
}

/// An address as `{:?}` prints a pointer: `0x` and lower-case hex.
pub open spec fn ptr_text(addr: nat) -> Seq<char> {
    seq!['0', 'x'] + num_text(addr, 16)
}

fn digit(d: u64) -> (c: char)
    requires
        d < 16,
    ensures
        c == digit_char(d as nat),
{
    if d == 0 { '0' }
    else if d == 1 { '1' }
    else if d == 2 { '2' }
    else if d == 3 { '3' }
    else if d == 4 { '4' }
    else if d == 5 { '5' }
    else if d == 6 { '6' }
    else if d == 7 { '7' }
    else if d == 8 { '8' }
    else if d == 9 { '9' }
    else if d == 10 { 'a' }
    else if d == 11 { 'b' }
    else if d == 12 { 'c' }
    else if d == 13 { 'd' }
    else if d == 14 { 'e' }
    else { 'f' }
}

/// Appends `n` written in base `base`.
pub fn write_num(s: &mut String, n: u64, base: u64)
    requires
        2 <= base <= 16,
    ensures
        final(s)@ == old(s)@ + num_text(n as nat, base as nat),
    decreases n,
{
    if n >= base {
        proof {
            lemma_div_decreases(n as nat, base as nat);
        }
        write_num(s, n / base, base);
    }
    let ghost before = s@;
    push_char(s, digit(n % base));
    proof {
        if n >= base {
            assert(before.push(digit_char((n % base) as nat)) == old(s)@ + num_text(
                (n / base) as nat,
                base as nat,
            ).push(digit_char((n % base) as nat)));
        } else {
            assert(n % base == n) by (nonlinear_arith)
                requires
                    n < base,
            ;
        }
    }
}

/// Appends the `width` lowest binary digits of `x`.
pub fn write_bits(s: &mut String, x: u64, width: u64)
    ensures
        final(s)@ == old(s)@ + bits_text(x as nat, width as nat),
    decreases width,
{
    if width > 0 {
        write_bits(s, x / 2, width - 1);
        push_char(s, digit(x % 2));
    }
}

/// Appends a signed 64-bit integer in decimal.
pub fn write_int(s: &mut String, x: i64)
    ensures
        final(s)@ == old(s)@ + int_text(x as int),
{
    if x < 0 {
        push_char(s, '-');
        let m: u64 = if x == i64::MIN {
            0x8000_0000_0000_0000u64
        } else {
            (-x) as u64
        };
        write_num(s, m, 10);
    } else {
        write_num(s, x as u64, 10);
    }
}

/// Appends an address the way `{:?}` prints a pointer.
pub fn write_ptr(s: &mut String, addr: usize)
    ensures
        final(s)@ == old(s)@ + ptr_text(addr as nat),
{
    push_char(s, '0');
    push_char(s, 'x');
    write_num(s, addr as u64, 16);
}

// ---------------------------------------------------------------------
// Characters and strings
// ---------------------------------------------------------------------

/// The Unicode `White_Space` property, which `char::is_whitespace`
/// documents that it tests.
pub open spec fn is_white_space(c: char) -> bool {
    let u = c as u32;
    ||| 0x09 <= u <= 0x0d
    ||| u == 0x20
    ||| u == 0x85
    ||| u == 0xa0
    ||| u == 0x1680
    ||| 0x2000 <= u <= 0x200a
    ||| u == 0x2028
    ||| u == 0x2029
    ||| u == 0x202f
    ||| u == 0x205f
    ||| u == 0x3000
}

pub fn white_space(c: char) -> (b: bool)
    ensures
        b == is_white_space(c),
{
    let u = c as u32;
    (0x09 <= u && u <= 0x0d) || u == 0x20 || u == 0x85 || u == 0xa0 || u == 0x1680
        || (0x2000 <= u && u <= 0x200a) || u == 0x2028 || u == 0x2029 || u == 0x202f
        || u == 0x205f || u == 0x3000
}

/// Removes leading white space.
pub open spec fn trim_start(s: Seq<char>) -> Seq<char>
    decreases s.len(),
{
    if s.len() > 0 && is_white_space(s[0]) {
        trim_start(s.drop_first())
    } else {
        s
    }
}

/// Removes trailing white space.
pub open spec fn trim_end(s: Seq<char>) -> Seq<char>
    decreases s.len(),
{
    if s.len() > 0 && is_white_space(s.last()) {
        trim_end(s.drop_last())
    } else {
        s
    }
}

/// Removes leading and trailing white space, as `str::trim` does.
pub open spec fn trim(s: Seq<char>) -> Seq<char> {
    trim_end(trim_start(s))
}

proof fn lemma_trim_start_skip(s: Seq<char>, i: int)
    requires
        0 <= i <= s.len(),
        forall|j: int| 0 <= j < i ==> is_white_space(#[trigger] s[j]),
    ensures
        trim_start(s) == trim_start(s.skip(i)),
    decreases i,
{
    if i > 0 {
        assert(s.skip(1) == s.drop_first());
        lemma_trim_start_skip(s.drop_first(), i - 1);
        assert(s.drop_first().skip(i - 1) == s.skip(i));
    } else {
        assert(s.skip(0) == s);
    }
}

proof fn lemma_trim_end_take(s: Seq<char>, i: int)
    requires
        0 <= i <= s.len(),
        forall|j: int| i <= j < s.len() ==> is_white_space(#[trigger] s[j]),
    ensures
        trim_end(s) == trim_end(s.take(i)),
    decreases s.len() - i,
{
    if i < s.len() {
        assert(s.take(s.len() - 1) == s.drop_last());
        lemma_trim_end_take(s.drop_last(), i);
        assert(s.drop_last().take(i) == s.take(i));
    } else {
        assert(s.take(i) == s);
    }
}

/// The characters of `s` without leading and trailing white space.
pub fn trimmed(s: &Vec<char>) -> (r: Vec<char>)
    ensures
        r@ == trim(s@),
{
    let n = s.len();
    let mut lo: usize = 0;
    while lo < n && white_space(s[lo])
        invariant
            n == s.len(),
            lo <= n,
            forall|j: int| 0 <= j < lo ==> is_white_space(#[trigger] s@[j]),
        decreases n - lo,
    {
        lo = lo + 1;
    }
    proof {
        lemma_trim_start_skip(s@, lo as int);
        assert(trim_start(s@.skip(lo as int)) == s@.skip(lo as int));
    }
    let ghost t = s@.skip(lo as int);
    let mut hi: usize = n;
    while hi > lo && white_space(s[hi - 1])
        invariant
            n == s.len(),
            lo <= hi <= n,
            t == s@.skip(lo as int),
            forall|j: int| hi <= j < n ==> is_white_space(#[trigger] s@[j]),
        decreases hi - lo,
    {
        hi = hi - 1;
    }
    proof {
        assert forall|j: int| (hi - lo) <= j < t.len() implies is_white_space(#[trigger] t[j]) by {
            assert(t[j] == s@[j + lo]);
        }
        lemma_trim_end_take(t, hi - lo);
        let u = t.take(hi - lo);
        if u.len() > 0 {
            assert(u.last() == s@[hi - 1]);
        }
        assert(trim_end(u) == u);
    }
    let mut r: Vec<char> = Vec::new();
    let mut i: usize = lo;
    while i < hi
        invariant
            n == s.len(),
            lo <= i <= hi <= n,
            r@ == s@.subrange(lo as int, i as int),
        decreases hi - i,
    {
        r.push(s[i]);
        i = i + 1;
    }
    assert(r@ == t.take(hi - lo));
    r
}

/// `s` with every `from` replaced by `to`, as `str::replace` does with a
/// `char` pattern.
pub open spec fn replace_char(s: Seq<char>, from: char, to: Seq<char>) -> Seq<char>
    decreases s.len(),
{
    if s.len() == 0 {
        Seq::empty()
    } else {
        replace_char(s.drop_last(), from, to) + (if s.last() == from {
            to
        } else {
            seq![s.last()]
        })
    }
}

/// What one character becomes when `from` is replaced by `to`.
pub open spec fn replaced_piece(c: char, from: char, to: Seq<char>) -> Seq<char> {
    if c == from {
        to
    } else {
        seq![c]
    }
}

/// `s` with the occurrences of `pat` replaced by `to`, found from the
/// left and not overlapping, as `str::replace` does with a string
/// pattern (meaningful for a non-empty `pat`).
pub open spec fn replace_str(s: Seq<char>, pat: Seq<char>, to: Seq<char>) -> Seq<char>
    decreases s.len(),
{
    if pat.len() == 0 || s.len() < pat.len() {
        s
    } else if s.take(pat.len() as int) == pat {
        to + replace_str(s.skip(pat.len() as int), pat, to)
    } else {
        seq![s[0]] + replace_str(s.drop_first(), pat, to)
    }
}

proof fn lemma_replace_char_prepend(x: char, t: Seq<char>, from: char, to: Seq<char>)
    ensures
        replace_char(seq![x] + t, from, to) == replaced_piece(x, from, to) + replace_char(
            t,
            from,
            to,
        ),
    decreases t.len(),
{
    let u = seq![x] + t;
    if t.len() == 0 {
        assert(u.drop_last() =~= Seq::<char>::empty());
        assert(u.last() == x);
        assert(replace_char(u, from, to) =~= replaced_piece(x, from, to) + replace_char(
            t,
            from,
            to,
        ));
    } else {
        assert(u.drop_last() =~= seq![x] + t.drop_last());
        assert(u.last() == t.last());
        lemma_replace_char_prepend(x, t.drop_last(), from, to);
        assert(replace_char(u, from, to) == replace_char(u.drop_last(), from, to)
            + replaced_piece(t.last(), from, to));
        assert(replace_char(t, from, to) == replace_char(t.drop_last(), from, to)
            + replaced_piece(t.last(), from, to));
        assert(replace_char(u, from, to) =~= replaced_piece(x, from, to) + replace_char(
            t,
            from,
            to,
        ));
    }
}

/// Replacing each `from` by `from` followed by `more`, and then each
/// `from` followed by `more` by `from` alone, gives back the text.
pub proof fn lemma_replace_round_trip(t: Seq<char>, from: char, more: Seq<char>)
    ensures
        replace_str(replace_char(t, from, seq![from] + more), seq![from] + more, seq![from]) == t,
    decreases t.len(),
{
    let pat = seq![from] + more;
    let out = replace_char(t, from, pat);
    if t.len() == 0 {
        assert(out == Seq::<char>::empty());
    } else {
        let rest = t.drop_first();
        assert(t =~= seq![t[0]] + rest);
        lemma_replace_char_prepend(t[0], rest, from, pat);
        let r = replace_char(rest, from, pat);
        lemma_replace_round_trip(rest, from, more);
        assert(out == replaced_piece(t[0], from, pat) + r);
        if t[0] == from {
            assert(out.take(pat.len() as int) =~= pat);
            assert(out.skip(pat.len() as int) =~= r);
            assert(replace_str(out, pat, seq![from]) == seq![from] + replace_str(
                r,
                pat,
                seq![from],
            ));
            assert(seq![from] + rest =~= t);
        } else {
            assert(out =~= seq![t[0]] + r);
            if out.len() < pat.len() {
                assert(r.len() < pat.len());
                assert(replace_str(r, pat, seq![from]) == r);
                assert(out =~= t);
            } else {
                assert(out.take(pat.len() as int)[0] != pat[0]);
                assert(out.drop_first() =~= r);
                assert(replace_str(out, pat, seq![from]) =~= seq![t[0]] + rest);
            }
        }
    }
}

/// Appends `src` with every `from` replaced by `to`.
pub fn write_replaced(s: &mut String, src: &Vec<char>, from: char, to: &str)
    ensures
        final(s)@ == old(s)@ + replace_char(src@, from, to@),
{
    let mut i: usize = 0;
    while i < src.len()
        invariant
            i <= src.len(),
            s@ == old(s)@ + replace_char(src@.subrange(0, i as int), from, to@),
        decreases src.len() - i,
    {
        let ghost prev = src@.subrange(0, i as int);
        assert(src@.subrange(0, i + 1).drop_last() == prev);
        if src[i] == from {
            s.append(to);
        } else {
            push_char(s, src[i]);
        }
        i = i + 1;
    }
    assert(src@.subrange(0, src.len() as int) == src@);
}

// ---------------------------------------------------------------------
// Ordering of strings
// ---------------------------------------------------------------------

/// Lexicographic order on characters, compared by code point. On UTF-8
/// text this is the order of `str`'s `Ord`, which compares bytes.
pub open spec fn lex_lt(a: Seq<char>, b: Seq<char>) -> bool
    decreases a.len(),
{
    if b.len() == 0 {
        false
    } else if a.len() == 0 {
        true
    } else if a[0] == b[0] {
        lex_lt(a.drop_first(), b.drop_first())
    } else {
        a[0] < b[0]
    }
}

pub proof fn lemma_lex_irreflexive(a: Seq<char>)
    ensures
        !lex_lt(a, a),
    decreases a.len(),
{
    if a.len() > 0 {
        lemma_lex_irreflexive(a.drop_first());
    }
}

pub proof fn lemma_lex_transitive(a: Seq<char>, b: Seq<char>, c: Seq<char>)
    requires
        lex_lt(a, b),
        lex_lt(b, c),
    ensures
        lex_lt(a, c),
    decreases a.len(),
{
    if a.len() > 0 && b.len() > 0 && c.len() > 0 {
        if a[0] == b[0] && b[0] == c[0] {
            lemma_lex_transitive(a.drop_first(), b.drop_first(), c.drop_first());
        }
    }
}

pub proof fn lemma_lex_total(a: Seq<char>, b: Seq<char>)
    ensures
        a == b || lex_lt(a, b) || lex_lt(b, a),
    decreases a.len(),
{
    if a.len() > 0 && b.len() > 0 {
        if a[0] == b[0] {
            lemma_lex_total(a.drop_first(), b.drop_first());
            if a.drop_first() == b.drop_first() {
                assert(a == seq![a[0]] + a.drop_first());
                assert(b == seq![b[0]] + b.drop_first());
            }
        }
    } else if a.len() == 0 && b.len() == 0 {
        assert(a == b);
    }
}

pub proof fn lemma_lex_asymmetric(a: Seq<char>, b: Seq<char>)
    requires
        lex_lt(a, b),
    ensures
        !lex_lt(b, a),
{
    if lex_lt(b, a) {
        lemma_lex_transitive(a, b, a);
        lemma_lex_irreflexive(a);
    }
}

proof fn lemma_lex_skip(a: Seq<char>, b: Seq<char>, i: int)
    requires
        0 <= i <= a.len(),
        i <= b.len(),
        a.take(i) == b.take(i),
    ensures
        lex_lt(a, b) == lex_lt(a.skip(i), b.skip(i)),
    decreases i,
{
    if i > 0 {
        assert(a[0] == a.take(i)[0]);
        assert(b[0] == b.take(i)[0]);
        assert(a.drop_first().take(i - 1) == a.take(i).drop_first());
        assert(b.drop_first().take(i - 1) == b.take(i).drop_first());
        lemma_lex_skip(a.drop_first(), b.drop_first(), i - 1);
        assert(a.drop_first().skip(i - 1) == a.skip(i));
        assert(b.drop_first().skip(i - 1) == b.skip(i));
    } else {
        assert(a.skip(0) == a);
        assert(b.skip(0) == b);
    }
}

/// Whether `a` sorts strictly before `b`.
pub fn lex_less(a: &Vec<char>, b: &Vec<char>) -> (r: bool)
    ensures
        r == lex_lt(a@, b@),
{
    let mut i: usize = 0;
    while i < a.len() && i < b.len() && a[i] == b[i]
        invariant
            i <= a.len(),
            i <= b.len(),
            a@.take(i as int) == b@.take(i as int),
        decreases a.len() - i,
    {
        assert(a@.take(i + 1) == a@.take(i as int).push(a@[i as int]));
        assert(b@.take(i + 1) == b@.take(i as int).push(b@[i as int]));
        i = i + 1;
    }
    proof {
        lemma_lex_skip(a@, b@, i as int);
    }
    if i == b.len() {
        false
    } else if i == a.len() {
        true
    } else {
        a[i] < b[i]
    }
}

/// Whether two character sequences are equal.
pub fn chars_equal(a: &Vec<char>, b: &Vec<char>) -> (r: bool)
    ensures
        r == (a@ == b@),
{
    if a.len() != b.len() {
        return false;
    }
    let mut i: usize = 0;
    while i < a.len()
        invariant
            a.len() == b.len(),
            i <= a.len(),
            a@.take(i as int) == b@.take(i as int),
        decreases a.len() - i,
    {
        if a[i] != b[i] {
            assert(a@[i as int] != b@[i as int]);
            return false;
        }
        assert(a@.take(i + 1) == a@.take(i as int).push(a@[i as int]));
        assert(b@.take(i + 1) == b@.take(i as int).push(b@[i as int]));
        i = i + 1;
    }
    assert(a@.take(a.len() as int) == a@);
    assert(b@.take(b.len() as int) == b@);
    true
}

} // verus!

verus! {

// ---------------------------------------------------------------------
// Occurrence of a piece of text
// ---------------------------------------------------------------------

/// Whether `sub` appears somewhere in `s` as a run of consecutive
/// characters.
pub open spec fn occurs(s: Seq<char>, sub: Seq<char>) -> bool {
    exists|p: int|
        0 <= p && p + sub.len() <= s.len() && #[trigger] s.subrange(p, p + sub.len()) == sub
}

/// A text occurs in any text built around it.
pub proof fn lemma_occurs_within(a: Seq<char>, b: Seq<char>, c: Seq<char>)
    ensures
        occurs(a + b + c, b),
{
    let s = a + b + c;
    let p = a.len() as int;
    assert(s.subrange(p, p + b.len()) =~= b);
}

/// Occurrence is transitive.
pub proof fn lemma_occurs_trans(s: Seq<char>, mid: Seq<char>, sub: Seq<char>)
    requires
        occurs(s, mid),
        occurs(mid, sub),
    ensures
        occurs(s, sub),
{
    let p = choose|p: int|
        0 <= p && p + mid.len() <= s.len() && #[trigger] s.subrange(p, p + mid.len()) == mid;
    let q = choose|q: int|
        0 <= q && q + sub.len() <= mid.len() && #[trigger] mid.subrange(q, q + sub.len()) == sub;
    assert(s.subrange(p + q, p + q + sub.len()) =~= sub);
}

} // verus!
