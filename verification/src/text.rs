//! Text handling shared by the rule parsers: characters of a string,
//! trimming, splitting at a separator, unsigned numbers in decimal or
//! hexadecimal, and decimal rendering of numbers.
//!
//! Strings are handled as a `Vec<char>` together with a half-open window
//! `[lo, hi)` into it, so that the parsers can look at pieces of their input
//! without copying.
use vstd::prelude::*;
use vstd::string::*;

verus! {

/// The characters of `v` in the window `[lo, hi)`.
pub open spec fn window(v: Seq<char>, lo: int, hi: int) -> Seq<char> {
    v.subrange(lo, hi)
}

/// `char::is_whitespace`: the Unicode `White_Space` property.
pub open spec fn is_whitespace(c: char) -> bool {
    ||| '\u{9}' <= c <= '\u{d}'
    ||| c == ' '
    ||| c == '\u{85}'
    ||| c == '\u{a0}'
    ||| c == '\u{1680}'
    ||| '\u{2000}' <= c <= '\u{200a}'
    ||| c == '\u{2028}'
    ||| c == '\u{2029}'
    ||| c == '\u{202f}'
    ||| c == '\u{205f}'
    ||| c == '\u{3000}'
}

/// `s` without its leading whitespace.
pub open spec fn trim_start(s: Seq<char>) -> Seq<char>
    decreases s.len(),
{
    if s.len() > 0 && is_whitespace(s[0]) {
        trim_start(s.drop_first())
    } else {
        s
    }
}

/// `s` without its trailing whitespace.
pub open spec fn trim_end(s: Seq<char>) -> Seq<char>
    decreases s.len(),
{
    if s.len() > 0 && is_whitespace(s.last()) {
        trim_end(s.drop_last())
    } else {
        s
    }
}

/// `str::trim`: `s` without leading and trailing whitespace.
pub open spec fn trim(s: Seq<char>) -> Seq<char> {
    trim_end(trim_start(s))
}

/// `i` is the position of the first `c` in `s`.
pub open spec fn is_first_at(s: Seq<char>, c: char, i: int) -> bool {
    &&& 0 <= i < s.len()
    &&& s[i] == c
    &&& forall|j: int| 0 <= j < i ==> s[j] != c
}

/// The position of the first `c` in `s`, if `s` holds one.
pub open spec fn find_char(s: Seq<char>, c: char) -> Option<int> {
    if exists|i: int| is_first_at(s, c, i) {
        Some(choose|i: int| is_first_at(s, c, i))
    } else {
        None
    }
}

/// `str::split_once`: the text before and after the first `c`.
pub open spec fn split_once(s: Seq<char>, c: char) -> Option<(Seq<char>, Seq<char>)> {
    match find_char(s, c) {
        Some(i) => Some((s.subrange(0, i), s.subrange(i + 1, s.len() as int))),
        None => None,
    }
}

/// `str::split`: the pieces of `s` between the occurrences of `c`.
pub open spec fn split(s: Seq<char>, c: char) -> Seq<Seq<char>>
    decreases s.len(),
{
    match find_char(s, c) {
        Some(i) => if 0 <= i < s.len() {
            seq![s.subrange(0, i)] + split(s.subrange(i + 1, s.len() as int), c)
        } else {
            seq![s]
        },
        None => seq![s],
    }
}

/// The value of the digit `c` in base `radix` (10 or 16), as
/// `char::to_digit` gives it.
pub open spec fn digit_in(c: char, radix: nat) -> Option<nat> {
    if '0' <= c <= '9' {
        Some((c as nat - '0' as nat) as nat)
    } else if radix == 16 && 'a' <= c <= 'f' {
        Some((c as nat - 'a' as nat + 10) as nat)
    } else if radix == 16 && 'A' <= c <= 'F' {
        Some((c as nat - 'A' as nat + 10) as nat)
    } else {
        None
    }
}

/// Every character of `s` is a digit in base `radix`.
pub open spec fn all_digits(s: Seq<char>, radix: nat) -> bool {
    forall|i: int| 0 <= i < s.len() ==> (#[trigger] digit_in(s[i], radix)) is Some
}

/// The number that the digits `s` spell in base `radix`.
pub open spec fn digits_value(s: Seq<char>, radix: nat) -> nat
    decreases s.len(),
{
    if s.len() == 0 {
        0
    } else if radix == 16 {
        digits_value(s.drop_last(), radix) * 16 + digit_in(s.last(), radix).unwrap()
    } else {
        digits_value(s.drop_last(), radix) * 10 + digit_in(s.last(), radix).unwrap()
    }
}

/// `s` without one leading `+`.
pub open spec fn without_plus(s: Seq<char>) -> Seq<char> {
    if s.len() > 0 && s[0] == '+' {
        s.drop_first()
    } else {
        s
    }
}

/// What `from_str_radix(s, radix)` yields for an unsigned integer type
/// whose largest value is `max`: an optional `+`, then at least one digit,
/// and a value that fits the type.
pub open spec fn parse_unsigned(s: Seq<char>, radix: nat, max: nat) -> Option<nat> {
    let d = without_plus(s);
    if d.len() > 0 && all_digits(d, radix) && digits_value(d, radix) <= max {
        Some(digits_value(d, radix))
    } else {
        None
    }
}

/// The decimal digit character for `d < 10`.
pub open spec fn digit_char(d: nat) -> char {
    ('0' as nat + d) as char
}

/// How `Display` writes the number `n` in decimal.
pub open spec fn decimal(n: nat) -> Seq<char>
    decreases n,
{
    if n < 10 {
        seq![digit_char(n)]
    } else {
        decimal(n / 10).push(digit_char(n % 10))
    }
}

/// `parts` joined with `sep` between neighbours, as `[String]::join`.
pub open spec fn join(parts: Seq<Seq<char>>, sep: Seq<char>) -> Seq<char>
    decreases parts.len(),
{
    if parts.len() == 0 {
        Seq::empty()
    } else if parts.len() == 1 {
        parts[0]
    } else {
        join(parts.drop_last(), sep) + sep + parts.last()
    }
}

/// Two positions that are each the first `c` are the same position.
pub proof fn lemma_first_at_unique(s: Seq<char>, c: char, i: int, j: int)
    requires
        is_first_at(s, c, i),
        is_first_at(s, c, j),
    ensures
        i == j,
{
    if i < j {
        assert(s[i] != c);
    } else if j < i {
        assert(s[j] != c);
    }
}

/// A text without `c` splits into itself alone.
pub proof fn lemma_split_without(s: Seq<char>, c: char)
    requires
        !s.contains(c),
    ensures
        split(s, c) == seq![s],
{
    if exists|i: int| is_first_at(s, c, i) {
        let i = choose|i: int| is_first_at(s, c, i);
        assert(s[i] == c);
    }
}

/// A text `a` without `c`, then `c`, then `rest`, splits into `a` and the
/// pieces of `rest`.
pub proof fn lemma_split_cons(a: Seq<char>, c: char, rest: Seq<char>)
    requires
        !a.contains(c),
    ensures
        split(a + seq![c] + rest, c) == seq![a] + split(rest, c),
{
    let s = a + seq![c] + rest;
    let n = a.len() as int;
    assert(s[n] == c);
    assert forall|j: int| 0 <= j < n implies s[j] != c by {
        assert(s[j] == a[j]);
    }
    assert(is_first_at(s, c, n));
    assert forall|i: int| is_first_at(s, c, i) implies i == n by {
        lemma_first_at_unique(s, c, i, n);
    }
    assert(find_char(s, c) == Some(n));
    assert(s.subrange(0, n) =~= a);
    assert(s.subrange(n + 1, s.len() as int) =~= rest);
}

/// `String::push`: appends one character.
#[verifier::external_body]
pub(crate) fn push_char(s: &mut String, c: char)
    ensures
        final(s)@ == old(s)@.push(c),
{
    s.push(c);
}

/// The characters of `s`, one by one.
pub fn chars_of(s: &str) -> (v: Vec<char>)
    ensures
        v@ == s@,
{
    let n = s.unicode_len();
    let mut v: Vec<char> = Vec::new();
    let mut i: usize = 0;
    while i < n
        invariant
            n == s@.len(),
            i <= n,
            v@ == s@.subrange(0, i as int),
        decreases n - i,
    {
        let c = s.get_char(i);
        v.push(c);
        i = i + 1;
    }
    v
}

/// Appends the characters `v[lo..hi]` to `s`.
pub fn push_window(s: &mut String, v: &Vec<char>, lo: usize, hi: usize)
    requires
        lo <= hi <= v.len(),
    ensures
        final(s)@ == old(s)@ + window(v@, lo as int, hi as int),
{
    let mut i = lo;
    while i < hi
        invariant
            lo <= i <= hi <= v.len(),
            s@ == old(s)@ + window(v@, lo as int, i as int),
        decreases hi - i,
    {
        push_char(s, v[i]);
        assert(window(v@, lo as int, i + 1) =~= window(v@, lo as int, i as int).push(v@[i as int]));
        i = i + 1;
    }
}

/// The string made of the characters `v[lo..hi]`.
pub fn string_of_window(v: &Vec<char>, lo: usize, hi: usize) -> (s: String)
    requires
        lo <= hi <= v.len(),
    ensures
        s@ == window(v@, lo as int, hi as int),
{
    let mut s = String::new();
    push_window(&mut s, v, lo, hi);
    assert(s@ =~= window(v@, lo as int, hi as int));
    s
}

proof fn lemma_trim_start_step(v: Seq<char>, i: int, hi: int)
    requires
        0 <= i < hi <= v.len(),
        is_whitespace(v[i]),
    ensures
        trim_start(window(v, i, hi)) == trim_start(window(v, i + 1, hi)),
{
    assert(window(v, i, hi).drop_first() =~= window(v, i + 1, hi));
}

proof fn lemma_trim_end_step(v: Seq<char>, lo: int, j: int)
    requires
        0 <= lo < j <= v.len(),
        is_whitespace(v[j - 1]),
    ensures
        trim_end(window(v, lo, j)) == trim_end(window(v, lo, j - 1)),
{
    assert(window(v, lo, j).drop_last() =~= window(v, lo, j - 1));
}

/// The window `[a, b)` that `str::trim` leaves of the window `[lo, hi)`.
pub fn trim_window(v: &Vec<char>, lo: usize, hi: usize) -> (r: (usize, usize))
    requires
        lo <= hi <= v.len(),
    ensures
        lo <= r.0 <= r.1 <= hi,
        window(v@, r.0 as int, r.1 as int) == trim(window(v@, lo as int, hi as int)),
{
    let mut i = lo;
    while i < hi && is_whitespace_char(v[i])
        invariant
            lo <= i <= hi <= v.len(),
            trim_start(window(v@, lo as int, hi as int)) == trim_start(window(v@, i as int, hi as int)),
        decreases hi - i,
    {
        proof {
            lemma_trim_start_step(v@, i as int, hi as int);
        }
        i = i + 1;
    }
    assert(trim_start(window(v@, i as int, hi as int)) == window(v@, i as int, hi as int));
    let mut j = hi;
    while j > i && is_whitespace_char(v[j - 1])
        invariant
            lo <= i <= j <= hi <= v.len(),
            trim_end(window(v@, i as int, hi as int)) == trim_end(window(v@, i as int, j as int)),
        decreases j - i,
    {
        proof {
            lemma_trim_end_step(v@, i as int, j as int);
        }
        j = j - 1;
    }
    assert(trim_end(window(v@, i as int, j as int)) == window(v@, i as int, j as int));
    (i, j)
}

/// `char::is_whitespace`.
pub fn is_whitespace_char(c: char) -> (r: bool)
    ensures
        r == is_whitespace(c),
{
    ('\u{9}' <= c && c <= '\u{d}') || c == ' ' || c == '\u{85}' || c == '\u{a0}' || c == '\u{1680}'
        || ('\u{2000}' <= c && c <= '\u{200a}') || c == '\u{2028}' || c == '\u{2029}' || c
        == '\u{202f}' || c == '\u{205f}' || c == '\u{3000}'
}

/// The position of the first `c` in the window `[lo, hi)`, counted from
/// the start of `v`.
pub fn find_in_window(v: &Vec<char>, lo: usize, hi: usize, c: char) -> (r: Option<usize>)
    requires
        lo <= hi <= v.len(),
    ensures
        match find_char(window(v@, lo as int, hi as int), c) {
            Some(i) => r == Some((lo + i) as usize),
            None => r is None,
        },
        r matches Some(i) ==> lo <= i < hi,
{
    let ghost w = window(v@, lo as int, hi as int);
    let mut i = lo;
    while i < hi
        invariant
            lo <= i <= hi <= v.len(),
            w == window(v@, lo as int, hi as int),
            forall|j: int| 0 <= j < i - lo ==> w[j] != c,
        decreases hi - i,
    {
        if v[i] == c {
            proof {
                let k = (i - lo) as int;
                assert(is_first_at(w, c, k));
                let k2 = choose|k2: int| is_first_at(w, c, k2);
                lemma_first_at_unique(w, c, k, k2);
            }
            return Some(i);
        }
        i = i + 1;
    }
    assert(!exists|k: int| is_first_at(w, c, k));
    None
}

/// The window `[lo, hi)` split at every `c`: the bounds of the pieces, in
/// order.
pub fn split_window(v: &Vec<char>, lo: usize, hi: usize, c: char) -> (r: Vec<(usize, usize)>)
    requires
        lo <= hi <= v.len(),
    ensures
        r.len() == split(window(v@, lo as int, hi as int), c).len(),
        forall|k: int|
            0 <= k < r.len() ==> {
                &&& lo <= (#[trigger] r[k]).0 <= r[k].1 <= hi
                &&& window(v@, r[k].0 as int, r[k].1 as int) == split(
                    window(v@, lo as int, hi as int),
                    c,
                )[k]
            },
{
    let ghost whole = split(window(v@, lo as int, hi as int), c);
    let ghost mut done: Seq<Seq<char>> = Seq::empty();
    let mut parts: Vec<(usize, usize)> = Vec::new();
    let mut cur = lo;
    loop
        invariant
            lo <= cur <= hi <= v.len(),
            whole == split(window(v@, lo as int, hi as int), c),
            done + split(window(v@, cur as int, hi as int), c) == whole,
            parts.len() == done.len(),
            forall|k: int|
                0 <= k < parts.len() ==> {
                    &&& lo <= (#[trigger] parts[k]).0 <= parts[k].1 <= hi
                    &&& window(v@, parts[k].0 as int, parts[k].1 as int) == done[k]
                },
        decreases hi - cur,
    {
        let w = Ghost(window(v@, cur as int, hi as int));
        match find_in_window(v, cur, hi, c) {
            Some(j) => {
                proof {
                    let i = (j - cur) as int;
                    assert(find_char(w@, c) == Some(i));
                    assert(w@.subrange(0, i) =~= window(v@, cur as int, j as int));
                    assert(w@.subrange(i + 1, w@.len() as int) =~= window(v@, j + 1, hi as int));
                    assert(split(w@, c) == seq![window(v@, cur as int, j as int)] + split(
                        window(v@, j + 1, hi as int),
                        c,
                    ));
                    done = done.push(window(v@, cur as int, j as int));
                    assert(done + split(window(v@, j + 1, hi as int), c) =~= whole);
                }
                parts.push((cur, j));
                cur = j + 1;
            },
            None => {
                proof {
                    assert(split(w@, c) == seq![w@]);
                    done = done.push(w@);
                    assert(done =~= whole);
                }
                parts.push((cur, hi));
                return parts;
            },
        }
    }
}

/// Digit value of `c` in base `radix`, as `char::to_digit`.
pub fn digit_value(c: char, radix: u32) -> (r: Option<u32>)
    requires
        radix == 10 || radix == 16,
    ensures
        match digit_in(c, radix as nat) {
            Some(d) => r == Some(d as u32),
            None => r is None,
        },
{
    if '0' <= c && c <= '9' {
        Some(c as u32 - '0' as u32)
    } else if radix == 16 && 'a' <= c && c <= 'f' {
        Some(c as u32 - 'a' as u32 + 10)
    } else if radix == 16 && 'A' <= c && c <= 'F' {
        Some(c as u32 - 'A' as u32 + 10)
    } else {
        None
    }
}

/// A longer run of digits is worth at least as much as its prefix.
pub proof fn lemma_digits_value_prefix(s: Seq<char>, radix: nat, k: int)
    requires
        radix == 10 || radix == 16,
        all_digits(s, radix),
        0 <= k <= s.len(),
    ensures
        digits_value(s.subrange(0, k), radix) <= digits_value(s, radix),
    decreases s.len(),
{
    if k < s.len() {
        let t = s.drop_last();
        assert(all_digits(t, radix)) by {
            assert forall|i: int| 0 <= i < t.len() implies (#[trigger] digit_in(t[i], radix)) is Some by {
                assert(t[i] == s[i]);
            }
        }
        lemma_digits_value_prefix(t, radix, k);
        assert(t.subrange(0, k) =~= s.subrange(0, k));
    } else {
        assert(s.subrange(0, k) =~= s);
    }
}

/// `from_str_radix` on the window `[lo, hi)` for an unsigned type whose
/// largest value is `max`.
pub fn parse_unsigned_window(v: &Vec<char>, lo: usize, hi: usize, radix: u32, max: u32) -> (r:
    Option<u32>)
    requires
        lo <= hi <= v.len(),
        radix == 10 || radix == 16,
        max <= 0xffff,
    ensures
        match parse_unsigned(window(v@, lo as int, hi as int), radix as nat, max as nat) {
            Some(n) => r == Some(n as u32),
            None => r is None,
        },
{
    let ghost s = window(v@, lo as int, hi as int);
    let mut start = lo;
    if lo < hi && v[lo] == '+' {
        start = lo + 1;
    }
    let ghost d = window(v@, start as int, hi as int);
    assert(d =~= without_plus(s));
    if start == hi {
        return None;
    }
    let mut value: u32 = 0;
    let mut i = start;
    while i < hi
        invariant
            lo <= start < hi <= v.len(),
            start <= i <= hi,
            radix == 10 || radix == 16,
            max <= 0xffff,
            d == window(v@, start as int, hi as int),
            d == without_plus(s),
            s == window(v@, lo as int, hi as int),
            all_digits(d.subrange(0, i - start), radix as nat),
            value as nat == digits_value(d.subrange(0, i - start), radix as nat),
            value <= max,
        decreases hi - i,
    {
        let ghost k = (i - start) as int;
        let dig = digit_value(v[i], radix);
        match dig {
            None => {
                assert(d[k] == v@[i as int]);
                assert(!all_digits(d, radix as nat));
                return None;
            },
            Some(x) => {
                let ghost pre = d.subrange(0, k);
                let ghost next = d.subrange(0, k + 1);
                assert(next.drop_last() =~= pre);
                assert(next.last() == v@[i as int]);
                assert(all_digits(next, radix as nat)) by {
                    assert forall|j: int| 0 <= j < next.len() implies (#[trigger] digit_in(next[j], radix as nat)) is Some by {
                        if j < k {
                            assert(next[j] == pre[j]);
                        }
                    }
                }
                let nv: u32 = if radix == 16 { value * 16 + x } else { value * 10 + x };
                assert(nv as nat == digits_value(next, radix as nat));
                if nv > max {
                    proof {
                        if all_digits(d, radix as nat) {
                            lemma_digits_value_prefix(d, radix as nat, k + 1);
                        }
                    }
                    return None;
                }
                value = nv;
            },
        }
        i = i + 1;
    }
    assert(d.subrange(0, i - start) =~= d);
    Some(value)
}

/// `[String]::join`: the texts of `parts` with `sep` between neighbours.
pub fn join_strings(parts: &Vec<String>, sep: &str) -> (r: String)
    ensures
        r@ == join(parts@.map_values(|s: String| s@), sep@),
{
    let ghost all = parts@.map_values(|s: String| s@);
    let mut r = String::new();
    let mut i: usize = 0;
    while i < parts.len()
        invariant
            i <= parts.len(),
            all == parts@.map_values(|s: String| s@),
            r@ == join(all.take(i as int), sep@),
        decreases parts.len() - i,
    {
        let ghost before = r@;
        if i > 0 {
            r.append(sep);
        }
        r.append(parts[i].as_str());
        proof {
            let t = all.take(i + 1);
            assert(t.drop_last() =~= all.take(i as int));
            assert(t.last() == parts@[i as int]@);
            if i == 0 {
                assert(join(all.take(0), sep@) =~= Seq::<char>::empty());
                assert(r@ =~= join(t, sep@));
            }
        }
        i = i + 1;
    }
    assert(all.take(parts.len() as int) =~= all);
    r
}

/// The decimal digit character for `d`.
pub fn digit_char_of(d: u32) -> (c: char)
    requires
        d < 10,
    ensures
        c == digit_char(d as nat),
{
    match d {
        0 => '0',
        1 => '1',
        2 => '2',
        3 => '3',
        4 => '4',
        5 => '5',
        6 => '6',
        7 => '7',
        8 => '8',
        _ => '9',
    }
}

/// Appends the decimal digits of `n` to `s`.
pub fn push_decimal(s: &mut String, n: u32)
    ensures
        final(s)@ == old(s)@ + decimal(n as nat),
    decreases n,
{
    if n >= 10 {
        push_decimal(s, n / 10);
    }
    let c = digit_char_of(n % 10);
    push_char(s, c);
    proof {
        if n < 10 {
            assert(decimal(n as nat) == seq![digit_char(n as nat)]);
        }
    }
    assert(s@ =~= old(s)@ + decimal(n as nat));
}

/// Appends the decimal digits of `n` to `s`.
pub fn push_decimal64(s: &mut String, n: u64)
    ensures
        final(s)@ == old(s)@ + decimal(n as nat),
    decreases n,
{
    if n >= 10 {
        push_decimal64(s, n / 10);
    }
    let c = digit_char_of((n % 10) as u32);
    push_char(s, c);
    proof {
        if n < 10 {
            assert(decimal(n as nat) == seq![digit_char(n as nat)]);
        }
    }
    assert(s@ =~= old(s)@ + decimal(n as nat));
}

/// `str::trim`, as an owned string.
pub fn trimmed(s: &str) -> (r: String)
    ensures
        r@ == trim(s@),
{
    let v = chars_of(s);
    let n = v.len();
    assert(window(v@, 0, n as int) =~= s@);
    let (a, b) = trim_window(&v, 0, n);
    string_of_window(&v, a, b)
}

/// The decimal text of a number is a non-empty run of decimal digits
/// spelling that number.
pub proof fn lemma_decimal(n: nat)
    ensures
        decimal(n).len() >= 1,
        forall|i: int| 0 <= i < decimal(n).len() ==> '0' <= #[trigger] decimal(n)[i] <= '9',
        all_digits(decimal(n), 10),
        digits_value(decimal(n), 10) == n,
    decreases n,
{
    let d = decimal(n);
    if n < 10 {
        assert(digit_in(d[0], 10) == Some(n));
        assert(d.drop_last() =~= Seq::<char>::empty());
        assert(digits_value(d.drop_last(), 10) == 0);
    } else {
        lemma_decimal(n / 10);
        let p = decimal(n / 10);
        assert(d.drop_last() =~= p);
        assert(n == (n / 10) * 10 + n % 10) by (nonlinear_arith);
        assert(digits_value(d.drop_last(), 10) == n / 10);
        assert(digit_in(d.last(), 10) == Some(n % 10));
        assert forall|i: int| 0 <= i < d.len() implies '0' <= #[trigger] d[i] <= '9' by {
            if i < p.len() {
                assert(d[i] == p[i]);
            }
        }
        assert forall|i: int| 0 <= i < d.len() implies (#[trigger] digit_in(d[i], 10)) is Some by {
            assert('0' <= d[i] <= '9');
        }
    }
}

/// Reading back the decimal text of a number gives the number.
pub proof fn lemma_parse_decimal(n: nat, max: nat)
    requires
        n <= max,
    ensures
        parse_unsigned(decimal(n), 10, max) == Some(n),
{
    lemma_decimal(n);
    assert('0' <= decimal(n)[0] <= '9');
    assert(without_plus(decimal(n)) == decimal(n));
}

/// Trimming leaves the decimal text of a number as it is.
pub proof fn lemma_trim_decimal(n: nat)
    ensures
        trim(decimal(n)) == decimal(n),
{
    let d = decimal(n);
    lemma_decimal(n);
    assert('0' <= d[0] <= '9');
    assert('0' <= d.last() <= '9');
    assert(trim_start(d) == d);
    assert(trim_end(d) == d);
}

/// `s` starts with `p`.
pub open spec fn has_prefix(s: Seq<char>, p: Seq<char>) -> bool {
    p.len() <= s.len() && s.subrange(0, p.len() as int) == p
}

/// Whether the characters `v[lo..hi]` are exactly those of `w`.
fn window_equals(v: &Vec<char>, lo: usize, hi: usize, w: &Vec<char>) -> (r: bool)
    requires
        lo <= hi <= v.len(),
    ensures
        r == (window(v@, lo as int, hi as int) == w@),
{
    if hi - lo != w.len() {
        return false;
    }
    let mut i: usize = 0;
    while i < w.len()
        invariant
            lo <= hi <= v.len(),
            hi - lo == w.len(),
            i <= w.len(),
            forall|j: int| 0 <= j < i ==> v@[lo + j] == w@[j],
        decreases w.len() - i,
    {
        if v[lo + i] != w[i] {
            assert(window(v@, lo as int, hi as int)[i as int] != w@[i as int]);
            return false;
        }
        i = i + 1;
    }
    assert(window(v@, lo as int, hi as int) =~= w@);
    true
}

/// `a == b` on strings.
pub fn str_equals(a: &str, b: &str) -> (r: bool)
    ensures
        r == (a@ == b@),
{
    let va = chars_of(a);
    let vb = chars_of(b);
    assert(window(va@, 0, va.len() as int) =~= a@);
    window_equals(&va, 0, va.len(), &vb)
}

/// `str::starts_with` on the characters `v`.
pub fn starts_with(v: &Vec<char>, p: &str) -> (r: bool)
    ensures
        r == has_prefix(v@, p@),
{
    let vp = chars_of(p);
    if vp.len() > v.len() {
        return false;
    }
    window_equals(v, 0, vp.len(), &vp)
}

} // verus!
