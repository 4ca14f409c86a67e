//! Character-level string operations with contracts over `Seq<char>`.
use vstd::prelude::*;

verus! {

/// `p` is a prefix of `s`.
pub open spec fn is_prefix(p: Seq<char>, s: Seq<char>) -> bool {
    p.len() <= s.len() && s.subrange(0, p.len() as int) == p
}

/// `p` occurs in `s` starting at position `i`.
pub open spec fn occurs_at(s: Seq<char>, p: Seq<char>, i: int) -> bool {
    0 <= i && i + p.len() <= s.len() && s.subrange(i, i + p.len()) == p
}

/// `p` occurs somewhere in `s`.
pub open spec fn contains_seq(s: Seq<char>, p: Seq<char>) -> bool {
    exists|i: int| occurs_at(s, p, i)
}

/// Whether two strings hold the same characters.
pub fn str_eq(a: &str, b: &str) -> (r: bool)
    ensures
        r == (a@ == b@),
{
    let n = a.unicode_len();
    let m = b.unicode_len();
    if n != m {
        return false;
    }
    let mut i: usize = 0;
    while i < n
        invariant
            n == a@.len(),
            m == b@.len(),
            n == m,
            i <= n,
            forall|j: int| 0 <= j < i ==> a@[j] == b@[j],
        decreases n - i,
    {
        if a.get_char(i) != b.get_char(i) {
            return false;
        }
        i = i + 1;
    }
    assert(a@ =~= b@);
    true
}

/// Whether `p` occurs in `s` at character position `at`.
pub fn occurs_at_exec(s: &str, p: &str, at: usize) -> (r: bool)
    ensures
        r == occurs_at(s@, p@, at as int),
{
    let n = s.unicode_len();
    let m = p.unicode_len();
    if at > n || m > n - at {
        return false;
    }
    let mut i: usize = 0;
    while i < m
        invariant
            n == s@.len(),
            m == p@.len(),
            at + m <= n,
            i <= m,
            forall|j: int| 0 <= j < i ==> s@[at + j] == p@[j],
        decreases m - i,
    {
        if s.get_char(at + i) != p.get_char(i) {
            assert(s@.subrange(at as int, at + m)[i as int] != p@[i as int]);
            return false;
        }
        i = i + 1;
    }
    assert(s@.subrange(at as int, at + m) =~= p@);
    true
}

/// Whether `s` begins with `p`.
pub fn starts_with(s: &str, p: &str) -> (r: bool)
    ensures
        r == is_prefix(p@, s@),
{
    occurs_at_exec(s, p, 0)
}

/// Whether `p` occurs anywhere in `s`.
pub fn contains_str(s: &str, p: &str) -> (r: bool)
    ensures
        r == contains_seq(s@, p@),
{
    let n = s.unicode_len();
    let m = p.unicode_len();
    if m > n {
        assert forall|i: int| !occurs_at(s@, p@, i) by {}
        return false;
    }
    let mut i: usize = 0;
    loop
        invariant
            n == s@.len(),
            m == p@.len(),
            m <= n,
            i <= n - m,
            forall|j: int| 0 <= j < i ==> !occurs_at(s@, p@, j),
        decreases n - m - i,
    {
        if occurs_at_exec(s, p, i) {
            return true;
        }
        if i == n - m {
            assert forall|j: int| !occurs_at(s@, p@, j) by {
                if 0 <= j && j < i {
                }
            }
            return false;
        }
        i = i + 1;
    }
}

/// The first position at or after `from` where `c` occurs in `s`.
pub open spec fn first_from(s: Seq<char>, c: char, from: int) -> Option<int> {
    match s.subrange(from, s.len() as int).index_of_first(c) {
        Some(k) => Some(from + k),
        None => None,
    }
}

/// Position `k` is the first occurrence of `c` at or after `from`.
pub open spec fn is_first_from(s: Seq<char>, c: char, from: int, k: int) -> bool {
    &&& from <= k < s.len()
    &&& s[k] == c
    &&& forall|j: int| from <= j < k ==> s[j] != c
}

/// Ties `first_from` to its defining properties.
pub proof fn lemma_first_from(s: Seq<char>, c: char, from: int)
    requires
        0 <= from <= s.len(),
    ensures
        first_from(s, c, from) matches Some(k) ==> is_first_from(s, c, from, k),
        first_from(s, c, from) is None ==> forall|j: int| from <= j < s.len() ==> s[j] != c,
        forall|k: int| is_first_from(s, c, from, k) ==> first_from(s, c, from) == Some(k),
{
    let t = s.subrange(from, s.len() as int);
    t.index_of_first_ensures(c);
    assert forall|j: int| from <= j < s.len() implies s[j] == t[j - from] by {}
    if first_from(s, c, from) is None {
        assert forall|j: int| from <= j < s.len() implies s[j] != c by {
            if s[j] == c {
                assert(t.contains(c)) by { assert(t[j - from] == c); }
            }
        }
    }
    assert forall|k: int| is_first_from(s, c, from, k) implies first_from(s, c, from) == Some(k) by {
        assert(t[k - from] == c);
        assert(t.contains(c));
        let idx = t.index_of_first(c).unwrap();
        if idx < k - from {
            assert(s[from + idx] == c);
        } else if idx > k - from {
            assert(t[k - from] != c);
        }
    }
}

/// The first position at or after `from` where `c` occurs in `s`.
pub fn find_char_from(s: &str, c: char, from: usize) -> (r: Option<usize>)
    requires
        from <= s@.len(),
    ensures
        r matches Some(k) ==> first_from(s@, c, from as int) == Some(k as int),
        r is None ==> first_from(s@, c, from as int) is None,
{
    proof { lemma_first_from(s@, c, from as int); }
    let n = s.unicode_len();
    let mut i: usize = from;
    while i < n
        invariant
            n == s@.len(),
            from <= i <= n,
            forall|j: int| from <= j < i ==> s@[j] != c,
        decreases n - i,
    {
        if s.get_char(i) == c {
            assert(is_first_from(s@, c, from as int, i as int));
            proof { lemma_first_from(s@, c, from as int); }
            return Some(i);
        }
        i = i + 1;
    }
    None
}

/// The characters of `s` from `from` up to `to`.
pub fn substring(s: &str, from: usize, to: usize) -> (r: String)
    requires
        from <= to <= s@.len(),
    ensures
        r@ == s@.subrange(from as int, to as int),
{
    String::from_str(s.substring_char(from, to))
}


/// The characters that carry the Unicode `White_Space` property.
pub open spec fn is_whitespace(c: char) -> bool {
    ||| '\u{0009}' <= c <= '\u{000D}'
    ||| c == ' '
    ||| c == '\u{0085}'
    ||| c == '\u{00A0}'
    ||| c == '\u{1680}'
    ||| '\u{2000}' <= c <= '\u{200A}'
    ||| c == '\u{2028}'
    ||| c == '\u{2029}'
    ||| c == '\u{202F}'
    ||| c == '\u{205F}'
    ||| c == '\u{3000}'
}

/// Whether `c` is white space.
pub fn char_is_whitespace(c: char) -> (r: bool)
    ensures
        r == is_whitespace(c),
{
    ('\u{0009}' <= c && c <= '\u{000D}') || c == ' ' || c == '\u{0085}' || c == '\u{00A0}'
        || c == '\u{1680}' || ('\u{2000}' <= c && c <= '\u{200A}') || c == '\u{2028}'
        || c == '\u{2029}' || c == '\u{202F}' || c == '\u{205F}' || c == '\u{3000}'
}

/// Which characters a trim removes: white space, or one given character.
pub enum Strip {
    Whitespace,
    Char(char),
}

/// Whether `c` is removed by `strip`.
pub open spec fn strips(strip: Strip, c: char) -> bool {
    match strip {
        Strip::Whitespace => is_whitespace(c),
        Strip::Char(d) => c == d,
    }
}

fn strips_exec(strip: &Strip, c: char) -> (r: bool)
    ensures
        r == strips(*strip, c),
{
    match strip {
        Strip::Whitespace => char_is_whitespace(c),
        Strip::Char(d) => c == *d,
    }
}

/// `s` without the leading characters that `strip` removes.
pub open spec fn strip_start(s: Seq<char>, strip: Strip) -> Seq<char>
    decreases s.len(),
{
    if s.len() > 0 && strips(strip, s[0]) {
        strip_start(s.drop_first(), strip)
    } else {
        s
    }
}

/// `s` without the trailing characters that `strip` removes.
pub open spec fn strip_end(s: Seq<char>, strip: Strip) -> Seq<char>
    decreases s.len(),
{
    if s.len() > 0 && strips(strip, s.last()) {
        strip_end(s.drop_last(), strip)
    } else {
        s
    }
}

/// `s` without leading and trailing white space.
pub open spec fn trim_spec(s: Seq<char>) -> Seq<char> {
    strip_end(strip_start(s, Strip::Whitespace), Strip::Whitespace)
}

/// Removes from `s` the leading characters `lead` removes and then the trailing ones
/// `trail` removes.
pub fn strip_both(s: &str, lead: Strip, trail: Strip) -> (r: String)
    ensures
        r@ == strip_end(strip_start(s@, lead), trail),
{
    let n = s.unicode_len();
    let mut lo: usize = 0;
    assert(s@.subrange(0, n as int) =~= s@);
    while lo < n && strips_exec(&lead, s.get_char(lo))
        invariant
            n == s@.len(),
            lo <= n,
            strip_start(s@, lead) == strip_start(s@.subrange(lo as int, n as int), lead),
        decreases n - lo,
    {
        assert(s@.subrange(lo as int, n as int).drop_first() =~= s@.subrange(lo + 1, n as int));
        lo = lo + 1;
    }
    assert(strip_start(s@, lead) == s@.subrange(lo as int, n as int));
    let mut hi: usize = n;
    while hi > lo && strips_exec(&trail, s.get_char(hi - 1))
        invariant
            n == s@.len(),
            lo <= hi <= n,
            strip_end(s@.subrange(lo as int, n as int), trail) == strip_end(
                s@.subrange(lo as int, hi as int),
                trail,
            ),
        decreases hi - lo,
    {
        assert(s@.subrange(lo as int, hi as int).drop_last() =~= s@.subrange(
            lo as int,
            hi - 1,
        ));
        hi = hi - 1;
    }
    substring(s, lo, hi)
}

/// `s` without leading and trailing white space.
pub fn trim(s: &str) -> (r: String)
    ensures
        r@ == trim_spec(s@),
{
    strip_both(s, Strip::Whitespace, Strip::Whitespace)
}

/// The pieces of `s` between occurrences of `c`, in order; `c` occurring `k` times gives
/// `k + 1` pieces.
pub open spec fn split_spec(s: Seq<char>, c: char) -> Seq<Seq<char>>
    decreases s.len(),
{
    match first_from(s, c, 0) {
        Some(k) => if 0 <= k < s.len() {
            seq![s.subrange(0, k)] + split_spec(s.subrange(k + 1, s.len() as int), c)
        } else {
            seq![s]
        },
        None => seq![s],
    }
}

/// Splits `s` at every occurrence of `c`.
pub fn split_char(s: &str, c: char) -> (r: Vec<String>)
    ensures
        r.deep_view() == split_spec(s@, c),
{
    let n = s.unicode_len();
    let mut out: Vec<String> = Vec::new();
    let mut pos: usize = 0;
    assert(s@.subrange(0, n as int) =~= s@);
    assert(out.deep_view() + split_spec(s@, c) =~= split_spec(s@, c));
    loop
        invariant
            n == s@.len(),
            pos <= n,
            out.deep_view() + split_spec(s@.subrange(pos as int, n as int), c) == split_spec(
                s@,
                c,
            ),
        decreases n - pos,
    {
        let ghost rest = s@.subrange(pos as int, n as int);
        proof {
            lemma_first_from(s@, c, pos as int);
            lemma_first_from(rest, c, 0);
            assert(rest.subrange(0, rest.len() as int) =~= rest);
        }
        match find_char_from(s, c, pos) {
            Some(k) => {
                let piece = substring(s, pos, k);
                assert(is_first_from(rest, c, 0, k - pos));
                assert(first_from(rest, c, 0) == Some(k - pos));
                assert(rest.subrange(0, k - pos) =~= piece@);
                assert(rest.subrange(k - pos + 1, rest.len() as int) =~= s@.subrange(
                    k + 1,
                    n as int,
                ));
                let ghost before = out.deep_view();
                out.push(piece);
                assert(out.deep_view() =~= before.push(piece@));
                assert(before + split_spec(rest, c) =~= out.deep_view() + split_spec(
                    s@.subrange(k + 1, n as int),
                    c,
                ));
                pos = k + 1;
            },
            None => {
                let piece = substring(s, pos, n);
                assert(first_from(rest, c, 0) is None) by {
                    if first_from(rest, c, 0) is Some {
                        let k = first_from(rest, c, 0).unwrap();
                        assert(s@[pos + k] == rest[k]);
                    }
                }
                let ghost before = out.deep_view();
                out.push(piece);
                assert(out.deep_view() =~= before.push(piece@));
                assert(out.deep_view() =~= split_spec(s@, c));
                return out;
            },
        }
    }
}


/// A line without the carriage return that ends it, if any.
pub open spec fn drop_cr(line: Seq<char>) -> Seq<char> {
    if line.len() > 0 && line.last() == '\r' {
        line.drop_last()
    } else {
        line
    }
}

/// The lines of `s`: split at `\n`, each line without a `\r` before its `\n`; a final
/// line ending adds no empty line, and an empty text has no lines.
pub open spec fn lines_spec(s: Seq<char>) -> Seq<Seq<char>>
    decreases s.len(),
{
    if s.len() == 0 {
        seq![]
    } else {
        match first_from(s, '\n', 0) {
            Some(k) => if 0 <= k < s.len() {
                seq![drop_cr(s.subrange(0, k))] + lines_spec(s.subrange(k + 1, s.len() as int))
            } else {
                seq![]
            },
            None => seq![s],
        }
    }
}

/// The lines of `s`.
pub fn lines(s: &str) -> (r: Vec<String>)
    ensures
        r.deep_view() == lines_spec(s@),
{
    let n = s.unicode_len();
    let mut out: Vec<String> = Vec::new();
    let mut pos: usize = 0;
    assert(s@.subrange(0, n as int) =~= s@);
    assert(out.deep_view() + lines_spec(s@) =~= lines_spec(s@));
    while pos < n
        invariant
            n == s@.len(),
            pos <= n,
            out.deep_view() + lines_spec(s@.subrange(pos as int, n as int)) == lines_spec(s@),
        decreases n - pos,
    {
        let ghost rest = s@.subrange(pos as int, n as int);
        proof {
            lemma_first_from(s@, '\n', pos as int);
            lemma_first_from(rest, '\n', 0);
            assert(rest.subrange(0, rest.len() as int) =~= rest);
        }
        match find_char_from(s, '\n', pos) {
            Some(k) => {
                assert(is_first_from(rest, '\n', 0, k - pos));
                let ghost tail = s@.subrange(k + 1, n as int);
                assert(rest.subrange(k - pos + 1, rest.len() as int) =~= tail);
                let cut = if k > pos && s.get_char(k - 1) == '\r' {
                    k - 1
                } else {
                    k
                };
                let line = substring(s, pos, cut);
                assert(line@ =~= drop_cr(rest.subrange(0, k - pos)));
                assert(lines_spec(rest) == seq![line@] + lines_spec(tail));
                let ghost before = out.deep_view();
                out.push(line);
                assert(out.deep_view() =~= before.push(line@));
                assert(before + lines_spec(rest) =~= out.deep_view() + lines_spec(tail));
                pos = k + 1;
            },
            None => {
                assert(first_from(rest, '\n', 0) is None) by {
                    if first_from(rest, '\n', 0) is Some {
                        let k = first_from(rest, '\n', 0).unwrap();
                        assert(s@[pos + k] == rest[k]);
                    }
                }
                let line = substring(s, pos, n);
                assert(lines_spec(rest) == seq![rest]);
                let ghost before = out.deep_view();
                out.push(line);
                assert(out.deep_view() =~= before.push(line@));
                assert(out.deep_view() =~= lines_spec(s@));
                return out;
            },
        }
    }
    assert(s@.subrange(n as int, n as int) =~= Seq::<char>::empty());
    assert(out.deep_view() + Seq::<Seq<char>>::empty() =~= out.deep_view());
    out
}

/// The lines of two texts joined by a line ending are the lines of the first, then those of
/// the second, where the first is not empty and ends with neither `\n` nor `\r`.
pub proof fn lemma_lines_join(a: Seq<char>, b: Seq<char>)
    requires
        a.len() > 0,
        a.last() != '\n',
        a.last() != '\r',
    ensures
        lines_spec(a + seq!['\n'] + b) == lines_spec(a) + lines_spec(b),
    decreases a.len(),
{
    let s = a + seq!['\n'] + b;
    let n = a.len() as int;
    lemma_first_from(s, '\n', 0);
    lemma_first_from(a, '\n', 0);
    assert(s.subrange(0, s.len() as int) =~= s);
    assert(a.subrange(0, a.len() as int) =~= a);
    match first_from(a, '\n', 0) {
        None => {
            assert(is_first_from(s, '\n', 0, n)) by {
                assert forall|j: int| 0 <= j < n implies s[j] != '\n' by {
                    assert(s[j] == a[j]);
                }
            }
            assert(s.subrange(0, n) =~= a);
            assert(s.subrange(n + 1, s.len() as int) =~= b);
            assert(lines_spec(a) =~= seq![a]);
            assert(drop_cr(a) == a);
        },
        Some(k) => {
            assert(is_first_from(s, '\n', 0, k)) by {
                assert(s[k] == a[k]);
                assert forall|j: int| 0 <= j < k implies s[j] != '\n' by {
                    assert(s[j] == a[j]);
                }
            }
            assert(k < n - 1);
            let a2 = a.subrange(k + 1, n);
            assert(a2.last() == a.last());
            assert(s.subrange(0, k) =~= a.subrange(0, k));
            assert(s.subrange(k + 1, s.len() as int) =~= a2 + seq!['\n'] + b);
            lemma_lines_join(a2, b);
            assert(lines_spec(a) == seq![drop_cr(a.subrange(0, k))] + lines_spec(a2));
            assert(lines_spec(s) == seq![drop_cr(a.subrange(0, k))] + lines_spec(a2 + seq!['\n'] + b));
            assert(seq![drop_cr(a.subrange(0, k))] + (lines_spec(a2) + lines_spec(b)) =~= (seq![
                drop_cr(a.subrange(0, k)),
            ] + lines_spec(a2)) + lines_spec(b));
        },
    }
}

/// Whether `c` is an ASCII decimal digit.
pub open spec fn is_digit(c: char) -> bool {
    '0' <= c <= '9'
}

/// The value of a digit character.
pub open spec fn digit_value(c: char) -> nat {
    (c as nat - '0' as nat) as nat
}

/// The value of a sequence of decimal digits, most significant first.
pub open spec fn digits_value(d: Seq<char>) -> nat
    decreases d.len(),
{
    if d.len() == 0 {
        0
    } else {
        digits_value(d.drop_last()) * 10 + digit_value(d.last())
    }
}

/// Every character of `d` is a decimal digit.
pub open spec fn all_digits(d: Seq<char>) -> bool {
    forall|i: int| 0 <= i < d.len() ==> is_digit(#[trigger] d[i])
}

/// The digits that a number text holds after an optional leading `+`.
pub open spec fn unsigned_digits(s: Seq<char>) -> Seq<char> {
    if s.len() > 0 && s[0] == '+' {
        s.drop_first()
    } else {
        s
    }
}

/// What `str::parse::<u32>` gives: an optional `+`, then one or more decimal digits whose
/// value fits in a `u32`.
pub open spec fn parse_u32_spec(s: Seq<char>) -> Option<u32> {
    let d = unsigned_digits(s);
    if d.len() > 0 && all_digits(d) && digits_value(d) <= u32::MAX {
        Some(digits_value(d) as u32)
    } else {
        None
    }
}

proof fn lemma_digits_value_grows(d: Seq<char>, i: int, j: int)
    requires
        0 <= i <= j <= d.len(),
    ensures
        digits_value(d.take(i)) <= digits_value(d.take(j)),
    decreases j - i,
{
    if i < j {
        lemma_digits_value_grows(d, i, j - 1);
        assert(d.take(j).drop_last() =~= d.take(j - 1));
    }
}

/// Parses a decimal `u32` as `str::parse::<u32>` does.
pub fn parse_u32(s: &str) -> (r: Option<u32>)
    ensures
        r == parse_u32_spec(s@),
{
    let n = s.unicode_len();
    let start: usize = if n > 0 && s.get_char(0) == '+' {
        1
    } else {
        0
    };
    let ghost d = unsigned_digits(s@);
    assert(d =~= s@.subrange(start as int, n as int));
    if start == n {
        return None;
    }
    let mut i: usize = start;
    let mut acc: u32 = 0;
    assert(d.take(0) =~= Seq::<char>::empty());
    while i < n
        invariant
            n == s@.len(),
            start <= i <= n,
            start < n,
            d =~= s@.subrange(start as int, n as int),
            d == unsigned_digits(s@),
            forall|j: int| start <= j < i ==> is_digit(#[trigger] s@[j]),
            acc == digits_value(d.take(i - start)),
        decreases n - i,
    {
        let c = s.get_char(i);
        if !('0' <= c && c <= '9') {
            assert(!is_digit(d[i - start]));
            assert(!all_digits(d));
            return None;
        }
        let v: u32 = ((c as u32) - ('0' as u32)) as u32;
        assert(d.take(i - start + 1).drop_last() =~= d.take(i - start));
        assert(d.take(i - start + 1).last() == c);
        if acc > (u32::MAX - v) / 10 {
            proof {
                lemma_digits_value_grows(d, i - start + 1, d.len() as int);
                assert(d.take(d.len() as int) =~= d);
                let a = acc as int;
                let w = v as int;
                assert(a * 10 + w > u32::MAX) by (nonlinear_arith)
                    requires
                        a > (u32::MAX - w) / 10,
                        0 <= w,
                ;
                assert(digits_value(d.take(i - start + 1)) == acc * 10 + v);
            }
            return None;
        }
        acc = acc * 10 + v;
        i = i + 1;
    }
    assert(d.take(n - start) =~= d);
    assert(all_digits(d)) by {
        assert forall|j: int| 0 <= j < d.len() implies is_digit(#[trigger] d[j]) by {
            assert(s@[start + j] == d[j]);
        }
    }
    Some(acc)
}


/// The digit character of a value below ten.
pub open spec fn digit_char(d: nat) -> char {
    (('0' as nat) + d) as char
}

/// The decimal numeral of `n`, without leading zeros.
pub open spec fn decimal(n: nat) -> Seq<char>
    decreases n,
{
    if n < 10 {
        seq![digit_char(n)]
    } else {
        decimal(n / 10).push(digit_char(n % 10))
    }
}

fn digit_str(d: u32) -> (r: &'static str)
    requires
        d < 10,
    ensures
        r@ == seq![digit_char(d as nat)],
{
    proof {
        reveal_strlit("0");
        reveal_strlit("1");
        reveal_strlit("2");
        reveal_strlit("3");
        reveal_strlit("4");
        reveal_strlit("5");
        reveal_strlit("6");
        reveal_strlit("7");
        reveal_strlit("8");
        reveal_strlit("9");
    }
    match d {
        0 => "0",
        1 => "1",
        2 => "2",
        3 => "3",
        4 => "4",
        5 => "5",
        6 => "6",
        7 => "7",
        8 => "8",
        _ => "9",
    }
}

/// The decimal numeral of `n`, as `format!("{}", n)` writes it.
pub fn format_u32(n: u32) -> (r: String)
    ensures
        r@ == decimal(n as nat),
{
    format_u64(n as u64)
}

/// The decimal numeral of `n`, as `format!("{}", n)` writes it.
pub fn format_u64(n: u64) -> (r: String)
    ensures
        r@ == decimal(n as nat),
    decreases n,
{
    if n < 10 {
        String::from_str(digit_str(n as u32))
    } else {
        let mut s = format_u64(n / 10);
        s.append(digit_str((n % 10) as u32));
        s
    }
}

/// A numeral is made of digits and reads back as its number.
pub proof fn lemma_decimal_digits(n: nat)
    ensures
        decimal(n).len() > 0,
        all_digits(decimal(n)),
        digits_value(decimal(n)) == n,
        decimal(n)[0] != '+',
    decreases n,
{
    if n >= 10 {
        lemma_decimal_digits(n / 10);
        let d = decimal(n);
        assert(d.drop_last() =~= decimal(n / 10));
        assert((n / 10) * 10 + n % 10 == n) by (nonlinear_arith);
        assert(digit_value(digit_char(n % 10)) == n % 10);
        assert(d.last() == digit_char(n % 10));
        assert(digits_value(d) == digits_value(d.drop_last()) * 10 + digit_value(d.last()));
        assert(digits_value(d.drop_last()) == n / 10);
        assert forall|i: int| 0 <= i < d.len() implies is_digit(#[trigger] d[i]) by {
            if i < d.len() - 1 {
                assert(d[i] == decimal(n / 10)[i]);
            }
        }
    } else {
        let d = decimal(n);
        assert(d.drop_last() =~= Seq::<char>::empty());
        assert(digit_value(digit_char(n)) == n);
        assert(digits_value(d) == digits_value(d.drop_last()) * 10 + digit_value(d.last()));
    }
}

/// Formatting a number in decimal and parsing it back gives the number.
pub proof fn lemma_parse_format_u32(n: u32)
    ensures
        parse_u32_spec(decimal(n as nat)) == Some(n),
{
    lemma_decimal_digits(n as nat);
}

/// `s` with every occurrence of `pat` replaced by `rep`, scanning left to right and never
/// overlapping two occurrences.
pub open spec fn replace_spec(s: Seq<char>, pat: Seq<char>, rep: Seq<char>) -> Seq<char>
    decreases s.len(),
{
    if s.len() == 0 || pat.len() == 0 {
        s
    } else if is_prefix(pat, s) {
        rep + replace_spec(s.subrange(pat.len() as int, s.len() as int), pat, rep)
    } else {
        seq![s[0]] + replace_spec(s.drop_first(), pat, rep)
    }
}

/// Replacing a pattern that does not occur leaves the text as it is.
pub proof fn lemma_replace_absent(s: Seq<char>, pat: Seq<char>, rep: Seq<char>)
    requires
        !contains_seq(s, pat),
    ensures
        replace_spec(s, pat, rep) == s,
    decreases s.len(),
{
    if s.len() > 0 && pat.len() > 0 {
        if is_prefix(pat, s) {
            assert(occurs_at(s, pat, 0));
        }
        let t = s.drop_first();
        assert(!contains_seq(t, pat)) by {
            if contains_seq(t, pat) {
                let i = choose|i: int| occurs_at(t, pat, i);
                assert(s.subrange(i + 1, i + 1 + pat.len()) =~= t.subrange(i, i + pat.len()));
                assert(occurs_at(s, pat, i + 1));
            }
        }
        lemma_replace_absent(t, pat, rep);
        assert(seq![s[0]] + t =~= s);
    }
}

/// `s` with every occurrence of `pat` replaced by `rep`, as `str::replace` does for a
/// non-empty pattern.
pub fn replace_all(s: &str, pat: &str, rep: &str) -> (r: String)
    requires
        pat@.len() > 0,
    ensures
        r@ == replace_spec(s@, pat@, rep@),
{
    let n = s.unicode_len();
    let m = pat.unicode_len();
    let mut out = String::new();
    let mut i: usize = 0;
    assert(s@.subrange(0, n as int) =~= s@);
    while i < n
        invariant
            n == s@.len(),
            m == pat@.len(),
            m > 0,
            i <= n,
            out@ + replace_spec(s@.subrange(i as int, n as int), pat@, rep@) == replace_spec(
                s@,
                pat@,
                rep@,
            ),
        decreases n - i,
    {
        let ghost rest = s@.subrange(i as int, n as int);
        let ghost before = out@;
        if occurs_at_exec(s, pat, i) {
            assert(rest.subrange(0, m as int) =~= s@.subrange(i as int, i + m));
            assert(rest.subrange(m as int, rest.len() as int) =~= s@.subrange(i + m, n as int));
            out.append(rep);
            assert(before + replace_spec(rest, pat@, rep@) =~= out@ + replace_spec(
                s@.subrange(i + m, n as int),
                pat@,
                rep@,
            ));
            i = i + m;
        } else {
            assert(!is_prefix(pat@, rest)) by {
                if is_prefix(pat@, rest) {
                    assert(rest.subrange(0, m as int) =~= s@.subrange(i as int, i + m));
                }
            }
            let one = s.substring_char(i, i + 1);
            assert(one@ =~= seq![rest[0]]);
            assert(rest.drop_first() =~= s@.subrange(i + 1, n as int));
            out.append(one);
            assert(before + replace_spec(rest, pat@, rep@) =~= out@ + replace_spec(
                s@.subrange(i + 1, n as int),
                pat@,
                rep@,
            ));
            i = i + 1;
        }
    }
    assert(s@.subrange(n as int, n as int) =~= Seq::<char>::empty());
    assert(out@ + Seq::<char>::empty() =~= out@);
    out
}


/// `a` comes before `b` in the order of `str`: by code point, a proper prefix first.
pub open spec fn seq_lt(a: Seq<char>, b: Seq<char>) -> bool
    decreases a.len(),
{
    if a.len() == 0 {
        b.len() > 0
    } else if b.len() == 0 {
        false
    } else if a[0] != b[0] {
        (a[0] as int) < (b[0] as int)
    } else {
        seq_lt(a.drop_first(), b.drop_first())
    }
}

/// The order of texts is strict and total.
pub proof fn lemma_seq_lt_total(a: Seq<char>, b: Seq<char>)
    ensures
        !(seq_lt(a, b) && seq_lt(b, a)),
        a != b ==> seq_lt(a, b) || seq_lt(b, a),
        !seq_lt(a, a),
    decreases a.len(),
{
    lemma_seq_lt_irreflexive(a);
    if a.len() > 0 && b.len() > 0 {
        if a[0] != b[0] {
            assert((a[0] as int) != (b[0] as int));
        }
        lemma_seq_lt_total(a.drop_first(), b.drop_first());
        if a[0] == b[0] && a != b {
            assert(a.drop_first() != b.drop_first()) by {
                if a.drop_first() == b.drop_first() {
                    assert forall|i: int| 0 <= i < a.len() implies a[i] == b[i] by {
                        if i > 0 {
                            assert(a[i] == a.drop_first()[i - 1]);
                            assert(b[i] == b.drop_first()[i - 1]);
                        }
                    }
                    assert(a =~= b);
                }
            }
        }
    } else if a.len() == 0 && b.len() == 0 {
        assert(a =~= b);
    }
}

proof fn lemma_seq_lt_irreflexive(a: Seq<char>)
    ensures
        !seq_lt(a, a),
    decreases a.len(),
{
    if a.len() > 0 {
        lemma_seq_lt_irreflexive(a.drop_first());
    }
}

/// The order of texts is transitive.
pub proof fn lemma_seq_lt_trans(a: Seq<char>, b: Seq<char>, c: Seq<char>)
    requires
        seq_lt(a, b),
        seq_lt(b, c),
    ensures
        seq_lt(a, c),
    decreases a.len(),
{
    if a.len() > 0 && b.len() > 0 && c.len() > 0 {
        if a[0] == b[0] && b[0] == c[0] {
            lemma_seq_lt_trans(a.drop_first(), b.drop_first(), c.drop_first());
        }
    }
}

/// Whether `a` comes before `b`.
pub fn str_lt(a: &str, b: &str) -> (r: bool)
    ensures
        r == seq_lt(a@, b@),
{
    let n = a.unicode_len();
    let m = b.unicode_len();
    let mut i: usize = 0;
    assert(a@.skip(0) =~= a@);
    assert(b@.skip(0) =~= b@);
    while i < n && i < m
        invariant
            n == a@.len(),
            m == b@.len(),
            i <= n,
            i <= m,
            seq_lt(a@, b@) == seq_lt(a@.skip(i as int), b@.skip(i as int)),
        decreases n - i,
    {
        let x = a.get_char(i);
        let y = b.get_char(i);
        if x != y {
            return (x as u32) < (y as u32);
        }
        assert(a@.skip(i as int).drop_first() =~= a@.skip(i + 1));
        assert(b@.skip(i as int).drop_first() =~= b@.skip(i + 1));
        i = i + 1;
    }
    i < m
}

} // verus!
