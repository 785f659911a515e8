//! Character-level text handling: conversions between strings and
//! character vectors, and the string operations the watcher relies on.
use vstd::prelude::*;

verus! {

/// Appends `c` to `s` with `String::push`; the contract claims, as std
/// documents, that the string afterwards is the old one with `c` at its end.
#[verifier::external_body]
pub(crate) fn push_char(s: &mut String, c: char)
    ensures
        final(s)@ == old(s)@.push(c),
{
    s.push(c);
}

/// The characters of `s`, in order.
pub fn chars_of(s: &str) -> (v: Vec<char>)
    ensures
        v@ == s@,
{
    broadcast use vstd::string::group_string_axioms;
    let mut v: Vec<char> = Vec::new();
    for c in it: s.chars()
        invariant
            v@ == it.seq().take(it.index() as int),
            it.seq() == s@,
    {
        v.push(c);
    }
    v
}

/// A string holding exactly the characters of `v`.
pub fn string_from_chars(v: &[char]) -> (s: String)
    ensures
        s@ == v@,
{
    let mut s = String::new();
    let mut i: usize = 0;
    while i < v.len()
        invariant
            i <= v@.len(),
            s@ == v@.take(i as int),
        decreases v@.len() - i,
    {
        push_char(&mut s, v[i]);
        assert(v@.take(i + 1) =~= v@.take(i as int).push(v@[i as int]));
        i = i + 1;
    }
    assert(v@.take(v@.len() as int) =~= v@);
    s
}

} // verus!

verus! {

// ---------------------------------------------------------------------------
// Decimal numbers
// ---------------------------------------------------------------------------

/// The ASCII digit for `d` (meant for `d < 10`).
pub open spec fn digit_char(d: nat) -> char {
    (48 + d) as char
}

/// Whether `c` is an ASCII decimal digit.
pub open spec fn is_digit(c: char) -> bool {
    '0' <= c && c <= '9'
}

/// The decimal rendering of `n`, without sign or leading zeros, as `{}` prints it.
pub open spec fn decimal(n: nat) -> Seq<char>
    decreases n,
{
    if n < 10 {
        seq![digit_char(n)]
    } else {
        decimal(n / 10).push(digit_char(n % 10))
    }
}

/// The value of a run of decimal digits, most significant first.
pub open spec fn digits_value(s: Seq<char>) -> nat
    decreases s.len(),
{
    if s.len() == 0 {
        0
    } else {
        digits_value(s.drop_last()) * 10 + ((s.last() as int - 48) as nat)
    }
}

/// Whether every character of `s` is an ASCII digit.
pub open spec fn all_digits(s: Seq<char>) -> bool {
    forall|i: int| 0 <= i < s.len() ==> is_digit(#[trigger] s[i])
}

/// `s` without the one leading `+` that unsigned `from_str` accepts.
pub open spec fn unsigned_body(s: Seq<char>) -> Seq<char> {
    if s.len() > 0 && s[0] == '+' {
        s.drop_first()
    } else {
        s
    }
}

/// What `from_str` of an unsigned integer type whose largest value is `max`
/// gives for `s`: an optional `+`, then at least one ASCII digit, and a value
/// not above `max`.
pub open spec fn parse_unsigned(s: Seq<char>, max: nat) -> Option<nat> {
    let body = unsigned_body(s);
    if body.len() > 0 && all_digits(body) && digits_value(body) <= max {
        Some(digits_value(body))
    } else {
        None
    }
}

/// Appends the decimal rendering of `n` to `s`.
pub fn push_decimal(s: &mut String, n: u64)
    ensures
        final(s)@ == old(s)@ + decimal(n as nat),
    decreases n,
{
    if n >= 10 {
        push_decimal(s, n / 10);
    }
    let d: u8 = (n % 10) as u8;
    let c: char = (48u8 + d) as char;
    assert(c == digit_char((n % 10) as nat));
    push_char(s, c);
}

/// Parses `s` as an unsigned integer no larger than `max`, as `u64::from_str`
/// (or `usize::from_str` with `max == usize::MAX`) does.
pub fn parse_unsigned_chars(s: &[char], max: u64) -> (r: Option<u64>)
    ensures
        r matches Some(v) ==> parse_unsigned(s@, max as nat) == Some(v as nat),
        r is None ==> parse_unsigned(s@, max as nat) is None,
{
    let ghost body = unsigned_body(s@);
    let start: usize = if s.len() > 0 && s[0] == '+' { 1 } else { 0 };
    assert(body =~= s@.skip(start as int));
    if start >= s.len() {
        return None;
    }
    let mut acc: u64 = 0;
    let mut over = false;
    let mut i: usize = start;
    while i < s.len()
        invariant
            start <= i <= s@.len(),
            body =~= s@.skip(start as int),
            body == unsigned_body(s@),
            forall|k: int| start <= k < i ==> is_digit(#[trigger] s@[k]),
            !over ==> acc as nat == digits_value(s@.subrange(start as int, i as int)),
            over ==> digits_value(s@.subrange(start as int, i as int)) > max,
            !over ==> acc <= max,
        decreases s@.len() - i,
    {
        let c = s[i];
        if !('0' <= c && c <= '9') {
            assert(body[i - start] == c);
            assert(!is_digit(body[i - start]));
            assert(parse_unsigned(s@, max as nat) is None);
            return None;
        }
        let d: u64 = (c as u32 - 48) as u64;
        let ghost prev = s@.subrange(start as int, i as int);
        assert(s@.subrange(start as int, i + 1).drop_last() =~= prev);
        assert(s@.subrange(start as int, i + 1).last() == c);
        if !over {
            if acc > max / 10 {
                assert(acc * 10 + d > max) by (nonlinear_arith)
                    requires acc > max / 10;
                over = true;
            } else {
                assert(acc * 10 <= max) by (nonlinear_arith)
                    requires acc <= max / 10;
                let t: u64 = acc * 10;
                if d > max - t {
                    over = true;
                } else {
                    acc = t + d;
                }
            }
        } else {
            assert(digits_value(prev) * 10 + d >= digits_value(prev)) by (nonlinear_arith);
        }
        i = i + 1;
    }
    assert(s@.subrange(start as int, s@.len() as int) =~= body);
    if over {
        None
    } else {
        Some(acc)
    }
}

} // verus!

verus! {

// ---------------------------------------------------------------------------
// Comparing, trimming, splitting and case
// ---------------------------------------------------------------------------

/// Whether two character sequences are equal.
pub fn chars_eq(a: &[char], b: &[char]) -> (r: bool)
    ensures
        r == (a@ == b@),
{
    if a.len() != b.len() {
        return false;
    }
    let mut i: usize = 0;
    while i < a.len()
        invariant
            a@.len() == b@.len(),
            i <= a@.len(),
            forall|k: int| 0 <= k < i ==> a@[k] == b@[k],
        decreases a@.len() - i,
    {
        if a[i] != b[i] {
            return false;
        }
        i = i + 1;
    }
    assert(a@ =~= b@);
    true
}

/// Whether the characters of `a` spell `lit`.
pub fn chars_eq_str(a: &[char], lit: &str) -> (r: bool)
    ensures
        r == (a@ == lit@),
{
    let l = chars_of(lit);
    chars_eq(a, l.as_slice())
}

/// Whether `c` is white space in the sense of `char::is_whitespace`
/// (the Unicode `White_Space` property).
pub open spec fn is_whitespace(c: char) -> bool {
    ||| '\u{9}' <= c && c <= '\u{d}'
    ||| c == ' '
    ||| c == '\u{85}'
    ||| c == '\u{a0}'
    ||| c == '\u{1680}'
    ||| '\u{2000}' <= c && c <= '\u{200a}'
    ||| c == '\u{2028}'
    ||| c == '\u{2029}'
    ||| c == '\u{202f}'
    ||| c == '\u{205f}'
    ||| c == '\u{3000}'
}

/// Decides [`is_whitespace`].
pub fn char_is_whitespace(c: char) -> (r: bool)
    ensures
        r == is_whitespace(c),
{
    ('\u{9}' <= c && c <= '\u{d}') || c == ' ' || c == '\u{85}' || c == '\u{a0}' || c
        == '\u{1680}' || ('\u{2000}' <= c && c <= '\u{200a}') || c == '\u{2028}' || c
        == '\u{2029}' || c == '\u{202f}' || c == '\u{205f}' || c == '\u{3000}'
}

/// `s` without its leading white space.
pub open spec fn trim_start(s: Seq<char>) -> Seq<char>
    decreases s.len(),
{
    if s.len() > 0 && is_whitespace(s[0]) {
        trim_start(s.drop_first())
    } else {
        s
    }
}

/// `s` without its trailing white space.
pub open spec fn trim_end(s: Seq<char>) -> Seq<char>
    decreases s.len(),
{
    if s.len() > 0 && is_whitespace(s.last()) {
        trim_end(s.drop_last())
    } else {
        s
    }
}

/// `s` without leading and trailing white space, as `str::trim` gives it.
pub open spec fn trim(s: Seq<char>) -> Seq<char> {
    trim_end(trim_start(s))
}

/// The characters of `s[from..to]`.
pub fn copy_range(s: &[char], from: usize, to: usize) -> (r: Vec<char>)
    requires
        from <= to <= s@.len(),
    ensures
        r@ == s@.subrange(from as int, to as int),
{
    let mut r: Vec<char> = Vec::new();
    let mut i: usize = from;
    while i < to
        invariant
            from <= i <= to <= s@.len(),
            r@ == s@.subrange(from as int, i as int),
        decreases to - i,
    {
        r.push(s[i]);
        assert(s@.subrange(from as int, i + 1) =~= s@.subrange(from as int, i as int).push(s@[i as int]));
        i = i + 1;
    }
    r
}

/// [`trim`] on a character slice.
pub fn trim_chars(s: &[char]) -> (r: Vec<char>)
    ensures
        r@ == trim(s@),
{
    let mut i: usize = 0;
    assert(s@.skip(0) =~= s@);
    while i < s.len() && char_is_whitespace(s[i])
        invariant
            i <= s@.len(),
            trim_start(s@) == trim_start(s@.skip(i as int)),
        decreases s@.len() - i,
    {
        assert(s@.skip(i as int).drop_first() =~= s@.skip(i + 1));
        i = i + 1;
    }
    let mut j: usize = s.len();
    assert(s@.skip(i as int) =~= s@.subrange(i as int, j as int));
    while j > i && char_is_whitespace(s[j - 1])
        invariant
            i <= j <= s@.len(),
            trim(s@) == trim_end(s@.subrange(i as int, j as int)),
        decreases j,
    {
        assert(s@.subrange(i as int, j as int).drop_last() =~= s@.subrange(i as int, j - 1));
        j = j - 1;
    }
    copy_range(s, i, j)
}

/// The pieces of `s` between occurrences of `sep`, as `str::split` yields them
/// (an empty `s` gives one empty piece).
pub open spec fn split(s: Seq<char>, sep: char) -> Seq<Seq<char>>
    decreases s.len(),
{
    if s.len() == 0 {
        seq![Seq::empty()]
    } else {
        let init = split(s.drop_last(), sep);
        if s.last() == sep {
            init.push(Seq::empty())
        } else {
            init.update(init.len() - 1, init.last().push(s.last()))
        }
    }
}

/// A split always has at least one piece.
pub proof fn lemma_split_nonempty(s: Seq<char>, sep: char)
    ensures
        split(s, sep).len() >= 1,
    decreases s.len(),
{
    if s.len() > 0 {
        lemma_split_nonempty(s.drop_last(), sep);
    }
}

/// [`split`] on a character slice.
pub fn split_chars(s: &[char], sep: char) -> (r: Vec<Vec<char>>)
    ensures
        r@.len() == split(s@, sep).len(),
        forall|k: int| 0 <= k < r@.len() ==> #[trigger] r@[k]@ == split(s@, sep)[k],
{
    let mut done: Vec<Vec<char>> = Vec::new();
    let mut cur: Vec<char> = Vec::new();
    let mut i: usize = 0;
    assert(s@.take(0) =~= Seq::<char>::empty());
    while i < s.len()
        invariant
            i <= s@.len(),
            split(s@.take(i as int), sep).len() == done@.len() + 1,
            forall|k: int| 0 <= k < done@.len() ==> #[trigger] done@[k]@ == split(s@.take(i as int), sep)[k],
            cur@ == split(s@.take(i as int), sep).last(),
        decreases s@.len() - i,
    {
        let c = s[i];
        assert(s@.take(i + 1).drop_last() =~= s@.take(i as int));
        assert(s@.take(i + 1).last() == c);
        if c == sep {
            done.push(cur);
            cur = Vec::new();
        } else {
            cur.push(c);
        }
        i = i + 1;
    }
    assert(s@.take(s@.len() as int) =~= s@);
    done.push(cur);
    done
}

/// `c` with ASCII upper-case letters mapped to lower case.
pub open spec fn ascii_lower(c: char) -> char {
    if 'A' <= c && c <= 'Z' {
        ((c as int) + 32) as char
    } else {
        c
    }
}

/// `str::to_ascii_lowercase`.
pub open spec fn to_ascii_lower(s: Seq<char>) -> Seq<char> {
    s.map_values(|c: char| ascii_lower(c))
}

/// [`to_ascii_lower`] on a character slice.
pub fn ascii_lowercase(s: &[char]) -> (r: Vec<char>)
    ensures
        r@ == to_ascii_lower(s@),
{
    let mut r: Vec<char> = Vec::new();
    let mut i: usize = 0;
    while i < s.len()
        invariant
            i <= s@.len(),
            r@ =~= to_ascii_lower(s@.take(i as int)),
        decreases s@.len() - i,
    {
        let c = s[i];
        let l: char = if 'A' <= c && c <= 'Z' {
            ((c as u8) + 32) as char
        } else {
            c
        };
        assert(l == ascii_lower(c));
        r.push(l);
        assert(s@.take(i + 1) =~= s@.take(i as int).push(c));
        i = i + 1;
    }
    assert(s@.take(s@.len() as int) =~= s@);
    r
}

} // verus!

verus! {

// ---------------------------------------------------------------------------
// Prefixes, suffixes, removal and joining
// ---------------------------------------------------------------------------

/// Whether `s` begins with `p`.
pub open spec fn has_prefix(s: Seq<char>, p: Seq<char>) -> bool {
    p.len() <= s.len() && s.take(p.len() as int) == p
}

/// Whether `s` ends with `p`.
pub open spec fn has_suffix(s: Seq<char>, p: Seq<char>) -> bool {
    p.len() <= s.len() && s.skip(s.len() - p.len()) == p
}

/// Whether `s[at..]` begins with `p`.
fn matches_at(s: &[char], at: usize, p: &[char]) -> (r: bool)
    requires
        at <= s@.len(),
    ensures
        r == has_prefix(s@.skip(at as int), p@),
{
    if s.len() - at < p.len() {
        return false;
    }
    let mut k: usize = 0;
    while k < p.len()
        invariant
            at + p@.len() <= s@.len(),
            s@.len() == s.len(),
            k <= p@.len(),
            forall|m: int| 0 <= m < k ==> s@[at + m] == p@[m],
        decreases p@.len() - k,
    {
        if s[at + k] != p[k] {
            assert(s@.skip(at as int).take(p@.len() as int)[k as int] != p@[k as int]);
            return false;
        }
        k = k + 1;
    }
    assert(s@.skip(at as int).take(p@.len() as int) =~= p@);
    true
}

/// Decides [`has_prefix`].
pub fn chars_starts_with(s: &[char], p: &[char]) -> (r: bool)
    ensures
        r == has_prefix(s@, p@),
{
    assert(s@.skip(0) =~= s@);
    matches_at(s, 0, p)
}

/// Decides [`has_suffix`].
pub fn chars_ends_with(s: &[char], p: &[char]) -> (r: bool)
    ensures
        r == has_suffix(s@, p@),
{
    if p.len() > s.len() {
        return false;
    }
    let at = s.len() - p.len();
    let r = matches_at(s, at, p);
    assert(s@.skip(at as int).take(p@.len() as int) =~= s@.skip(at as int));
    r
}

/// `s` with every occurrence of `p` taken out, scanning from the left as
/// `str::replace(p, "")` does.
pub open spec fn remove_all(s: Seq<char>, p: Seq<char>) -> Seq<char>
    decreases s.len(),
{
    if p.len() == 0 || s.len() < p.len() {
        s
    } else if s.take(p.len() as int) == p {
        remove_all(s.skip(p.len() as int), p)
    } else {
        seq![s[0]] + remove_all(s.drop_first(), p)
    }
}

/// [`remove_all`] on character slices.
pub fn remove_all_chars(s: &[char], p: &[char]) -> (r: Vec<char>)
    ensures
        r@ == remove_all(s@, p@),
{
    if p.len() == 0 {
        return copy_range(s, 0, s.len());
    }
    let mut out: Vec<char> = Vec::new();
    let mut i: usize = 0;
    assert(s@.skip(0) =~= s@);
    while s.len() - i >= p.len()
        invariant
            0 < p@.len(),
            i <= s@.len(),
            remove_all(s@, p@) == out@ + remove_all(s@.skip(i as int), p@),
        decreases s@.len() - i,
    {
        if matches_at(s, i, p) {
            assert(s@.skip(i as int).skip(p@.len() as int) =~= s@.skip(i + p@.len()));
            i = i + p.len();
        } else {
            assert(s@.skip(i as int).drop_first() =~= s@.skip(i + 1));
            assert(s@.skip(i as int)[0] == s@[i as int]);
            let ghost before = out@;
            out.push(s[i]);
            assert(before + (seq![s@[i as int]] + remove_all(s@.skip(i + 1), p@)) =~= out@
                + remove_all(s@.skip(i + 1), p@));
            i = i + 1;
        }
    }
    let rest = copy_range(s, i, s.len());
    assert(rest@ =~= s@.skip(i as int));
    let mut k: usize = 0;
    let ghost base = out@;
    while k < rest.len()
        invariant
            k <= rest@.len(),
            out@ =~= base + rest@.take(k as int),
        decreases rest@.len() - k,
    {
        out.push(rest[k]);
        assert(rest@.take(k + 1) =~= rest@.take(k as int).push(rest@[k as int]));
        k = k + 1;
    }
    assert(rest@.take(rest@.len() as int) =~= rest@);
    out
}

/// The pieces joined with `sep` between consecutive ones, as `[T]::join` gives them.
pub open spec fn join(parts: Seq<Seq<char>>, sep: Seq<char>) -> Seq<char>
    decreases parts.len(),
{
    if parts.len() == 0 {
        Seq::empty()
    } else if parts.len() == 1 {
        parts[0]
    } else {
        join(parts.drop_last(), sep) + sep + parts.last()
    }
}

/// The views of a list of strings.
pub open spec fn views(v: Seq<String>) -> Seq<Seq<char>> {
    v.map_values(|s: String| s@)
}

/// [`join`] on strings.
pub fn join_strings(parts: &[String], sep: &str) -> (r: String)
    ensures
        r@ == join(views(parts@), sep@),
{
    let mut r = String::new();
    let mut i: usize = 0;
    while i < parts.len()
        invariant
            i <= parts@.len(),
            r@ == join(views(parts@.take(i as int)), sep@),
        decreases parts@.len() - i,
    {
        assert(views(parts@.take(i + 1)).drop_last() =~= views(parts@.take(i as int)));
        assert(views(parts@.take(i + 1)).last() == parts@[i as int]@);
        if i > 0 {
            r.append(sep);
        } else {
            assert(r@ =~= Seq::<char>::empty());
        }
        r.append(parts[i].as_str());
        i = i + 1;
    }
    assert(parts@.take(parts@.len() as int) =~= parts@);
    r
}

} // verus!

verus! {

/// The view of an optional string slice.
pub open spec fn opt_view(o: Option<&str>) -> Option<Seq<char>> {
    match o {
        Some(s) => Some(s@),
        None => None,
    }
}

/// A result whose error message is taken by its view.
pub open spec fn result_view<T>(r: Result<T, String>) -> Result<T, Seq<char>> {
    match r {
        Ok(v) => Ok(v),
        Err(e) => Err(e@),
    }
}

} // verus!

verus! {

/// The decimal rendering of `n` reads back as `n`: what [`push_decimal`]
/// writes, [`parse_unsigned_chars`] parses to the same number.
pub proof fn lemma_decimal_parses_back(n: nat, max: nat)
    requires
        n <= max,
    ensures
        parse_unsigned(decimal(n), max) == Some(n),
{
    lemma_decimal_digits(n);
    assert(unsigned_body(decimal(n)) == decimal(n));
}

proof fn lemma_decimal_digits(n: nat)
    ensures
        decimal(n).len() > 0,
        all_digits(decimal(n)),
        digits_value(decimal(n)) == n,
        decimal(n)[0] != '+',
    decreases n,
{
    let d = digit_char(n % 10);
    assert(d as int == 48 + n % 10);
    if n < 10 {
        let s = decimal(n);
        assert(s.drop_last() =~= Seq::<char>::empty());
        assert(s.last() == d);
        assert(digits_value(s.drop_last()) == 0);
        assert(digits_value(s) == digits_value(s.drop_last()) * 10 + ((s.last() as int - 48) as nat));
        assert(n % 10 == n);
    } else {
        lemma_decimal_digits(n / 10);
        let s = decimal(n);
        assert(s.drop_last() =~= decimal(n / 10));
        assert(s.last() == d);
        assert(s[0] == decimal(n / 10)[0]);
        assert forall|i: int| 0 <= i < s.len() implies is_digit(#[trigger] s[i]) by {
            if i < s.len() - 1 {
                assert(s[i] == decimal(n / 10)[i]);
            }
        }
        assert(digits_value(s) == digits_value(s.drop_last()) * 10 + ((s.last() as int - 48) as nat));
        assert(n == (n / 10) * 10 + n % 10);
    }
}

} // verus!

verus! {

/// The decimal rendering of `n` is digits only, with no leading zero unless
/// `n` is zero.
pub proof fn lemma_decimal_canonical(n: nat)
    ensures
        decimal(n).len() > 0,
        all_digits(decimal(n)),
        decimal(n).len() == 1 || decimal(n)[0] != '0',
        decimal(n)[0] != '+',
    decreases n,
{
    lemma_decimal_digits(n);
    if n >= 10 {
        lemma_decimal_canonical(n / 10);
        let s = decimal(n);
        assert(s[0] == decimal(n / 10)[0]);
        if n / 10 < 10 {
            let d = digit_char(n / 10);
            assert(d as int == 48 + n / 10);
            assert(decimal(n / 10)[0] == d);
        } else {
            lemma_decimal_digits(n / 100);
            assert(n / 10 / 10 == n / 100);
            assert(decimal(n / 10).len() == decimal(n / 100).len() + 1);
        }
    }
}

} // verus!

verus! {

/// Text without the separator is a single piece.
pub proof fn lemma_split_without_separator(s: Seq<char>, sep: char)
    requires
        forall|k: int| 0 <= k < s.len() ==> s[k] != sep,
    ensures
        split(s, sep) == seq![s],
    decreases s.len(),
{
    if s.len() > 0 {
        lemma_split_without_separator(s.drop_last(), sep);
        assert(s.drop_last().push(s.last()) =~= s);
        assert(seq![s.drop_last()].update(0, s.drop_last().push(s.last())) =~= seq![s]);
    } else {
        assert(s =~= Seq::<char>::empty());
    }
}

/// Splitting around one separator splits each side on its own.
pub proof fn lemma_split_concat(a: Seq<char>, b: Seq<char>, sep: char)
    ensures
        split(a + seq![sep] + b, sep) == split(a, sep) + split(b, sep),
    decreases b.len(),
{
    let x = a + seq![sep] + b;
    lemma_split_nonempty(a, sep);
    if b.len() == 0 {
        assert(x =~= a.push(sep));
        assert(x.drop_last() =~= a);
        assert(split(a, sep).push(Seq::empty()) =~= split(a, sep) + seq![Seq::<char>::empty()]);
    } else {
        let b1 = b.drop_last();
        lemma_split_concat(a, b1, sep);
        lemma_split_nonempty(b1, sep);
        assert(x.drop_last() =~= a + seq![sep] + b1);
        assert(x.last() == b.last());
        let l = split(a, sep);
        let r = split(b1, sep);
        if b.last() == sep {
            assert((l + r).push(Seq::empty()) =~= l + r.push(Seq::empty()));
        } else {
            let lr = l + r;
            assert(lr.last() == r.last());
            assert(lr.update(lr.len() - 1, lr.last().push(b.last())) =~= l + r.update(
                r.len() - 1,
                r.last().push(b.last()),
            ));
        }
    }
}

/// Whether every character of `s` is an ASCII letter.
pub open spec fn all_ascii_letters(s: Seq<char>) -> bool {
    forall|k: int| 0 <= k < s.len() ==> ('a' <= #[trigger] s[k] && s[k] <= 'z') || ('A' <= s[k] && s[k] <= 'Z')
}

/// Text that lower-cases to lower-case letters is made of ASCII letters.
pub proof fn lemma_lower_letters(w: Seq<char>)
    requires
        forall|k: int| 0 <= k < w.len() ==> 'a' <= #[trigger] to_ascii_lower(w)[k] && to_ascii_lower(w)[k] <= 'z',
    ensures
        all_ascii_letters(w),
{
    assert forall|k: int| 0 <= k < w.len() implies ('a' <= #[trigger] w[k] && w[k] <= 'z') || ('A'
        <= w[k] && w[k] <= 'Z') by {
        assert(to_ascii_lower(w)[k] == ascii_lower(w[k]));
    }
}

/// Letters are not trimmed.
pub proof fn lemma_trim_letters(w: Seq<char>)
    requires
        all_ascii_letters(w),
    ensures
        trim(w) == w,
{
    if w.len() > 0 {
        assert(!is_whitespace(w[0]));
        assert(!is_whitespace(w.last()));
    }
}

} // verus!

verus! {

/// A join starts with its first piece.
pub proof fn lemma_join_starts_with_first(parts: Seq<Seq<char>>, sep: Seq<char>)
    requires
        parts.len() > 0,
    ensures
        has_prefix(join(parts, sep), parts[0]),
    decreases parts.len(),
{
    if parts.len() > 1 {
        lemma_join_starts_with_first(parts.drop_last(), sep);
        let j = join(parts.drop_last(), sep);
        assert(parts.drop_last()[0] == parts[0]);
        assert((j + sep + parts.last()).take(parts[0].len() as int) =~= j.take(parts[0].len() as int));
    } else {
        assert(parts[0].take(parts[0].len() as int) =~= parts[0]);
    }
}

/// A join ends with its last piece.
pub proof fn lemma_join_ends_with_last(parts: Seq<Seq<char>>, sep: Seq<char>)
    requires
        parts.len() > 0,
    ensures
        has_suffix(join(parts, sep), parts.last()),
{
    if parts.len() > 1 {
        let j = join(parts.drop_last(), sep) + sep + parts.last();
        assert(j.skip(j.len() - parts.last().len()) =~= parts.last());
    } else {
        let j = parts[0];
        assert(j.skip(0) =~= j);
    }
}

} // verus!
