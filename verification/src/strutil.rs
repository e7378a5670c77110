//! Shared string helpers: character classes, comparison, line splitting,
//! trimming, decimal rendering and joining, each with an exact
//! specification over `Seq<char>`.

use vstd::prelude::*;

verus! {

/// The ASCII whitespace characters the annotation lexer skips between
/// tokens: space, tab, line feed, form feed, carriage return.
pub open spec fn is_lex_wsp(c: char) -> bool {
    c == ' ' || c == '\t' || c == '\n' || c == '\u{c}' || c == '\r'
}

/// The whitespace characters trimmed from around a variable key: the
/// lexer's set plus the vertical tab.
pub open spec fn is_trim_wsp(c: char) -> bool {
    is_lex_wsp(c) || c == '\u{b}'
}

pub open spec fn is_ascii_lower(c: char) -> bool {
    'a' <= c && c <= 'z'
}

pub open spec fn is_ascii_alpha(c: char) -> bool {
    is_ascii_lower(c) || ('A' <= c && c <= 'Z')
}

/// Executable test for the lexer's whitespace class.
pub fn lex_wsp(c: char) -> (r: bool)
    ensures
        r == is_lex_wsp(c),
{
    c == ' ' || c == '\t' || c == '\n' || c == '\u{c}' || c == '\r'
}

/// Executable test for the trimming whitespace class.
pub fn trim_wsp(c: char) -> (r: bool)
    ensures
        r == is_trim_wsp(c),
{
    lex_wsp(c) || c == '\u{b}'
}

pub fn ascii_lower(c: char) -> (r: bool)
    ensures
        r == is_ascii_lower(c),
{
    'a' <= c && c <= 'z'
}

pub fn ascii_alpha(c: char) -> (r: bool)
    ensures
        r == is_ascii_alpha(c),
{
    ascii_lower(c) || ('A' <= c && c <= 'Z')
}

/// Whether two string slices hold the same characters.
pub fn str_eq(a: &str, b: &str) -> (r: bool)
    ensures
        r == (a@ == b@),
{
    let an = a.unicode_len();
    let bn = b.unicode_len();
    if an != bn {
        assert(a@ != b@) by {
            assert(a@.len() != b@.len());
        }
        return false;
    }
    let mut i: usize = 0;
    while i < an
        invariant
            an == a@.len(),
            bn == b@.len(),
            an == bn,
            i <= an,
            forall|j: int| 0 <= j < i ==> a@[j] == b@[j],
        decreases an - i,
    {
        if a.get_char(i) != b.get_char(i) {
            return false;
        }
        i += 1;
    }
    proof {
        assert(a@ =~= b@);
    }
    true
}

/// Strict lexicographic order on character sequences, by code point.
/// For UTF-8 encoded strings this agrees with byte-wise order.
pub open spec fn char_seq_lt(a: Seq<char>, b: Seq<char>) -> bool
    decreases a.len() + b.len(),
{
    if b.len() == 0 {
        false
    } else if a.len() == 0 {
        true
    } else if a[0] != b[0] {
        (a[0] as u32) < (b[0] as u32)
    } else {
        char_seq_lt(a.drop_first(), b.drop_first())
    }
}

/// The order is total: of two distinct sequences one is strictly below
/// the other, and never both.
pub proof fn lemma_char_seq_lt_total(a: Seq<char>, b: Seq<char>)
    ensures
        char_seq_lt(a, b) || char_seq_lt(b, a) || a =~= b,
        !(char_seq_lt(a, b) && char_seq_lt(b, a)),
    decreases a.len() + b.len(),
{
    if a.len() == 0 || b.len() == 0 {
    } else if a[0] != b[0] {
        vstd::utf8::char_u32_cast(a[0], a[0] as u32);
        vstd::utf8::char_u32_cast(b[0], b[0] as u32);
        assert(a[0] as u32 != b[0] as u32);
    } else {
        lemma_char_seq_lt_total(a.drop_first(), b.drop_first());
        if a.drop_first() =~= b.drop_first() {
            assert forall|i: int| 0 <= i < a.len() implies a[i] == b[i] by {
                if i > 0 {
                    assert(a.drop_first()[i - 1] == b.drop_first()[i - 1]);
                }
            }
            assert(a =~= b);
        }
    }
}

/// The order is transitive.
pub proof fn lemma_char_seq_lt_trans(a: Seq<char>, b: Seq<char>, c: Seq<char>)
    requires
        char_seq_lt(a, b),
        char_seq_lt(b, c),
    ensures
        char_seq_lt(a, c),
    decreases a.len() + b.len() + c.len(),
{
    if c.len() == 0 || b.len() == 0 || a.len() == 0 {
    } else if a[0] == b[0] && b[0] == c[0] {
        lemma_char_seq_lt_trans(a.drop_first(), b.drop_first(), c.drop_first());
    }
}

/// Comparing two sequences that agree on a common prefix comes down to
/// comparing what follows the prefix.
pub proof fn lemma_char_seq_lt_skip(a: Seq<char>, b: Seq<char>, i: int)
    requires
        0 <= i <= a.len(),
        i <= b.len(),
        forall|j: int| 0 <= j < i ==> a[j] == b[j],
    ensures
        char_seq_lt(a, b) == char_seq_lt(a.skip(i), b.skip(i)),
    decreases i,
{
    if i > 0 {
        assert(a.len() > 0 && b.len() > 0 && a[0] == b[0]);
        assert(char_seq_lt(a, b) == char_seq_lt(a.drop_first(), b.drop_first()));
        lemma_char_seq_lt_skip(a.drop_first(), b.drop_first(), i - 1);
        assert(a.drop_first().skip(i - 1) =~= a.skip(i));
        assert(b.drop_first().skip(i - 1) =~= b.skip(i));
    } else {
        assert(a.skip(0) =~= a);
        assert(b.skip(0) =~= b);
    }
}

/// Whether `a` orders strictly below `b`.
pub fn str_lt(a: &str, b: &str) -> (r: bool)
    ensures
        r == char_seq_lt(a@, b@),
{
    let an = a.unicode_len();
    let bn = b.unicode_len();
    let mut i: usize = 0;
    loop
        invariant
            an == a@.len(),
            bn == b@.len(),
            i <= an,
            i <= bn,
            forall|j: int| 0 <= j < i ==> a@[j] == b@[j],
        decreases an - i,
    {
        proof {
            lemma_char_seq_lt_skip(a@, b@, i as int);
        }
        if i >= an || i >= bn {
            proof {
                assert(a@.skip(i as int).len() == an - i);
                assert(b@.skip(i as int).len() == bn - i);
            }
            return an < bn;
        }
        let ca = a.get_char(i);
        let cb = b.get_char(i);
        if ca != cb {
            proof {
                assert(a@.skip(i as int)[0] == ca);
                assert(b@.skip(i as int)[0] == cb);
                assert(a@.skip(i as int).len() > 0);
                assert(b@.skip(i as int).len() > 0);
            }
            return (ca as u32) < (cb as u32);
        }
        i += 1;
    }
}

/// The decimal numeral of `n`, most significant digit first.
pub open spec fn dec_rep(n: nat) -> Seq<char>
    decreases n,
{
    if n < 10 {
        seq![dec_digit(n)]
    } else {
        dec_rep(n / 10) + seq![dec_digit(n % 10)]
    }
}

/// The digit character for a value below ten.
pub open spec fn dec_digit(d: nat) -> char {
    if d == 0 { '0' }
    else if d == 1 { '1' }
    else if d == 2 { '2' }
    else if d == 3 { '3' }
    else if d == 4 { '4' }
    else if d == 5 { '5' }
    else if d == 6 { '6' }
    else if d == 7 { '7' }
    else if d == 8 { '8' }
    else { '9' }
}

fn dec_digit_str(d: usize) -> (r: &'static str)
    requires
        d < 10,
    ensures
        r@ =~= seq![dec_digit(d as nat)],
{
    proof {
        reveal_strlit("0");
        reveal_strlit("1");
        reveal_strlit("2");
        reveal_strlit("3");
        reveal_strlit("4");
        reveal_strlit("5");
        reveal_strlit("6");
        reveal_strlit("7");
        reveal_strlit("8");
        reveal_strlit("9");
    }
    match d {
        0 => "0",
        1 => "1",
        2 => "2",
        3 => "3",
        4 => "4",
        5 => "5",
        6 => "6",
        7 => "7",
        8 => "8",
        _ => "9",
    }
}

/// Renders `n` in decimal.
pub fn usize_to_dec(n: usize) -> (r: String)
    ensures
        r@ == dec_rep(n as nat),
    decreases n,
{
    if n < 10 {
        String::from_str(dec_digit_str(n))
    } else {
        let high = usize_to_dec(n / 10);
        high.concat(dec_digit_str(n % 10))
    }
}

/// The concatenation of `items` with `sep` between neighbours.
pub open spec fn spec_join(items: Seq<Seq<char>>, sep: Seq<char>) -> Seq<char>
    decreases items.len(),
{
    if items.len() == 0 {
        Seq::empty()
    } else if items.len() == 1 {
        items[0]
    } else {
        items[0] + sep + spec_join(items.drop_first(), sep)
    }
}

/// Appending one more item extends the join by a separator and the item.
pub proof fn lemma_join_push(s: Seq<Seq<char>>, x: Seq<char>, sep: Seq<char>)
    ensures
        s.len() == 0 ==> spec_join(s.push(x), sep) == x,
        s.len() > 0 ==> spec_join(s.push(x), sep) == spec_join(s, sep) + sep + x,
    decreases s.len(),
{
    if s.len() == 0 {
        assert(s.push(x)[0] == x);
    } else if s.len() == 1 {
        let p = s.push(x);
        assert(p[0] == s[0]);
        assert(p.drop_first() =~= seq![x]);
        assert(spec_join(p.drop_first(), sep) == x);
    } else {
        let p = s.push(x);
        assert(p[0] == s[0]);
        assert(p.drop_first() =~= s.drop_first().push(x));
        lemma_join_push(s.drop_first(), x, sep);
        assert(s[0] + sep + (spec_join(s.drop_first(), sep) + sep + x) =~= (s[0] + sep
            + spec_join(s.drop_first(), sep)) + sep + x);
    }
}

/// Joins `items` with `sep` between neighbours.
pub fn join(items: &Vec<String>, sep: &str) -> (r: String)
    ensures
        r@ == spec_join(items.deep_view(), sep@),
{
    let mut out = String::new();
    let n = items.len();
    let mut i: usize = 0;
    while i < n
        invariant
            n == items@.len(),
            i <= n,
            out@ == spec_join(items.deep_view().take(i as int), sep@),
        decreases n - i,
    {
        proof {
            let dv = items.deep_view();
            assert(dv.take(i as int).push(dv[i as int]) =~= dv.take(i + 1 as int));
            lemma_join_push(dv.take(i as int), dv[i as int], sep@);
            assert(dv[i as int] == items@[i as int]@);
        }
        if i > 0 {
            out.append(sep);
        }
        out.append(items[i].as_str());
        i += 1;
    }
    proof {
        assert(items.deep_view().take(n as int) =~= items.deep_view());
    }
    out
}

/// The first index at or after `i` whose character fails `p`, capped at
/// the end of `s`.
pub open spec fn first_not(s: Seq<char>, i: int, p: spec_fn(char) -> bool) -> int
    decreases s.len() - i,
{
    if i < 0 || i >= s.len() {
        s.len() as int
    } else if !p(s[i]) {
        i
    } else {
        first_not(s, i + 1, p)
    }
}

pub proof fn lemma_first_not_bounds(s: Seq<char>, i: int, p: spec_fn(char) -> bool)
    requires
        0 <= i <= s.len(),
    ensures
        i <= first_not(s, i, p) <= s.len(),
        forall|j: int| i <= j < first_not(s, i, p) ==> p(s[j]),
        first_not(s, i, p) < s.len() ==> !p(s[first_not(s, i, p)]),
    decreases s.len() - i,
{
    if i < s.len() && p(s[i]) {
        lemma_first_not_bounds(s, i + 1, p);
    }
}

pub proof fn lemma_first_not_is(s: Seq<char>, i: int, k: int, p: spec_fn(char) -> bool)
    requires
        0 <= i <= k <= s.len(),
        forall|j: int| i <= j < k ==> p(s[j]),
        k == s.len() || !p(s[k]),
    ensures
        first_not(s, i, p) == k,
    decreases k - i,
{
    if i < k {
        lemma_first_not_is(s, i + 1, k, p);
    }
}

/// Walking down from `i`: the least index `k` such that every character
/// in `[k, i)` satisfies `p`, going no further down than the first failure.
pub open spec fn last_not_below(s: Seq<char>, i: int, p: spec_fn(char) -> bool) -> int
    decreases i,
{
    if i <= 0 {
        0
    } else if i > s.len() {
        s.len() as int
    } else if p(s[i - 1]) {
        last_not_below(s, i - 1, p)
    } else {
        i
    }
}

pub proof fn lemma_last_not_below_is(s: Seq<char>, i: int, k: int, p: spec_fn(char) -> bool)
    requires
        0 <= k <= i <= s.len(),
        forall|j: int| k <= j < i ==> p(s[j]),
        k == 0 || !p(s[k - 1]),
    ensures
        last_not_below(s, i, p) == k,
    decreases i - k,
{
    if i > k {
        lemma_last_not_below_is(s, i - 1, k, p);
    }
}

/// The characters other than `'\n'`, as a predicate value shared by every
/// use site.
pub open spec fn p_not_nl() -> spec_fn(char) -> bool {
    |c: char| c != '\n'
}

/// The lexer's whitespace class as a predicate value.
pub open spec fn p_lex_wsp() -> spec_fn(char) -> bool {
    |c: char| is_lex_wsp(c)
}

/// The ASCII lower-case letters as a predicate value.
pub open spec fn p_lower() -> spec_fn(char) -> bool {
    |c: char| is_ascii_lower(c)
}

/// The characters other than a single quote.
pub open spec fn p_not_quote() -> spec_fn(char) -> bool {
    |c: char| c != '\''
}

/// The characters other than `'='`.
pub open spec fn p_not_eq() -> spec_fn(char) -> bool {
    |c: char| c != '='
}

/// The trimming whitespace class as a predicate value.
pub open spec fn p_trim_wsp() -> spec_fn(char) -> bool {
    |c: char| is_trim_wsp(c)
}

/// The index of the first `'\n'` at or after `i`, capped at the end.
pub open spec fn nl_at(s: Seq<char>, i: int) -> int {
    first_not(s, i, p_not_nl())
}

/// The index of the first `'='`, capped at the end.
pub open spec fn eq_idx(s: Seq<char>) -> int {
    first_not(s, 0, p_not_eq())
}

pub open spec fn ws_start(s: Seq<char>) -> int {
    first_not(s, 0, p_trim_wsp())
}

pub open spec fn ws_end(s: Seq<char>) -> int {
    last_not_below(s, s.len() as int, p_trim_wsp())
}

/// `s` with surrounding whitespace removed.
pub open spec fn spec_trim(s: Seq<char>) -> Seq<char> {
    if ws_start(s) <= ws_end(s) {
        s.subrange(ws_start(s), ws_end(s))
    } else {
        Seq::empty()
    }
}

/// Removes surrounding whitespace.
pub fn trim<'a>(s: &'a str) -> (r: &'a str)
    ensures
        r@ == spec_trim(s@),
{
    let ghost wsp = p_trim_wsp();
    let n = s.unicode_len();
    let mut a: usize = 0;
    while a < n && trim_wsp(s.get_char(a))
        invariant
            n == s@.len(),
            a <= n,
            forall|j: int| 0 <= j < a ==> is_trim_wsp(s@[j]),
        decreases n - a,
    {
        a += 1;
    }
    proof {
        lemma_first_not_is(s@, 0, a as int, wsp);
        assert(ws_start(s@) == a as int);
    }
    if a == n {
        proof {
            lemma_last_not_below_is(s@, n as int, 0, wsp);
            if ws_start(s@) <= ws_end(s@) {
                assert(s@.subrange(0, 0) =~= Seq::<char>::empty());
            }
        }
        return s.substring_char(n, n);
    }
    let mut b: usize = n;
    while b > a && trim_wsp(s.get_char(b - 1))
        invariant
            n == s@.len(),
            a <= b <= n,
            forall|j: int| b <= j < n ==> is_trim_wsp(s@[j]),
        decreases b,
    {
        b -= 1;
    }
    proof {
        assert(!is_trim_wsp(s@[a as int]));
        assert(b as int == 0 || !is_trim_wsp(s@[b - 1])) by {
            if b > a {
            } else {
                assert(b == a);
            }
        }
        lemma_last_not_below_is(s@, n as int, b as int, wsp);
        assert(ws_end(s@) == b as int);
    }
    s.substring_char(a, b)
}

/// A line body with one trailing carriage return removed.
pub open spec fn strip_cr(l: Seq<char>) -> Seq<char> {
    if l.len() > 0 && l[l.len() - 1] == '\r' {
        l.drop_last()
    } else {
        l
    }
}

/// The lines of `s`: split at `'\n'`, a carriage return directly before
/// the split removed, and a final segment without a newline kept whole.
pub open spec fn spec_lines(s: Seq<char>) -> Seq<Seq<char>>
    decreases s.len(),
{
    if s.len() == 0 {
        Seq::empty()
    } else {
        let j = nl_at(s, 0);
        if !(0 <= j < s.len()) {
            seq![s]
        } else {
            seq![strip_cr(s.subrange(0, j))] + spec_lines(s.subrange(j + 1, s.len() as int))
        }
    }
}

/// Splits `s` into its lines.
pub fn split_lines<'a>(s: &'a str) -> (r: Vec<&'a str>)
    ensures
        r.deep_view() == spec_lines(s@),
{
    let ghost not_nl = p_not_nl();
    let n = s.unicode_len();
    let mut out: Vec<&'a str> = Vec::new();
    let mut start: usize = 0;
    let mut i: usize = 0;
    proof {
        assert(s@.skip(0) =~= s@);
        assert(out.deep_view() + spec_lines(s@) =~= spec_lines(s@));
    }
    while i < n
        invariant
            n == s@.len(),
            start <= i <= n,
            forall|j: int| start <= j < i ==> s@[j] != '\n',
            spec_lines(s@) == out.deep_view() + spec_lines(s@.skip(start as int)),
        decreases n - i,
    {
        if s.get_char(i) == '\n' {
            let end = if i > start && s.get_char(i - 1) == '\r' {
                i - 1
            } else {
                i
            };
            let line = s.substring_char(start, end);
            proof {
                let not_nl = p_not_nl();
                let tail = s@.skip(start as int);
                assert forall|j: int| 0 <= j < i - start implies not_nl(tail[j]) by {
                    assert(tail[j] == s@[start + j]);
                }
                assert(tail[i - start as int] == '\n');
                lemma_first_not_is(tail, 0, i - start as int, not_nl);
                assert(nl_at(tail, 0) == i - start as int);
                assert(tail.subrange(0, i - start as int) =~= s@.subrange(
                    start as int,
                    i as int,
                ));
                assert(tail.subrange(i - start as int + 1, tail.len() as int) =~= s@.skip(
                    i as int + 1,
                ));
                assert(strip_cr(s@.subrange(start as int, i as int)) =~= s@.subrange(
                    start as int,
                    end as int,
                ));
                assert(spec_lines(tail) == seq![s@.subrange(start as int, end as int)]
                    + spec_lines(s@.skip(i as int + 1)));
                assert(out.deep_view().push(line@) =~= out.deep_view() + seq![line@]);
                assert((out.deep_view() + seq![s@.subrange(start as int, end as int)])
                    + spec_lines(s@.skip(i as int + 1)) =~= out.deep_view() + (seq![
                    s@.subrange(start as int, end as int),
                ] + spec_lines(s@.skip(i as int + 1))));
            }
            out.push(line);
            start = i + 1;
        }
        i += 1;
    }
    if start < n {
        let line = s.substring_char(start, n);
        proof {
            let tail = s@.skip(start as int);
            assert forall|j: int| 0 <= j < tail.len() implies not_nl(tail[j]) by {
                assert(tail[j] == s@[start + j]);
            }
            lemma_first_not_is(tail, 0, tail.len() as int, not_nl);
            assert(tail =~= s@.subrange(start as int, n as int));
            assert(spec_lines(tail) == seq![tail]);
            assert(out.deep_view().push(line@) =~= out.deep_view() + seq![tail]);
        }
        out.push(line);
    } else {
        proof {
            assert(s@.skip(start as int).len() == 0);
            assert(out.deep_view() + spec_lines(s@.skip(start as int)) =~= out.deep_view());
        }
    }
    out
}

} // verus!


