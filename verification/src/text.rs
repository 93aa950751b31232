//! Text as sequences of characters: trimming, ASCII case, searching, joining
//! and ordering.

use crate::bignat::Side;
use vstd::prelude::*;
use vstd::string::*;

verus! {

/// `String::push` of the standard library: appends one character.
pub assume_specification[ String::push ](s: &mut String, c: char)
    ensures
        final(s)@ == old(s)@.push(c),
;

/// The characters with the Unicode property `White_Space`.
pub open spec fn is_white(c: char) -> bool {
    ||| 0x9 <= c as u32 <= 0xD
    ||| c as u32 == 0x20
    ||| c as u32 == 0x85
    ||| c as u32 == 0xA0
    ||| c as u32 == 0x1680
    ||| 0x2000 <= c as u32 <= 0x200A
    ||| c as u32 == 0x2028
    ||| c as u32 == 0x2029
    ||| c as u32 == 0x202F
    ||| c as u32 == 0x205F
    ||| c as u32 == 0x3000
}

/// `s` without the white space at its start.
pub open spec fn trim_start(s: Seq<char>) -> Seq<char>
    decreases s.len(),
{
    if s.len() > 0 && is_white(s[0]) {
        trim_start(s.drop_first())
    } else {
        s
    }
}

/// `s` without the white space at its end.
pub open spec fn trim_end(s: Seq<char>) -> Seq<char>
    decreases s.len(),
{
    if s.len() > 0 && is_white(s.last()) {
        trim_end(s.drop_last())
    } else {
        s
    }
}

/// `s` without the white space at its two ends.
pub open spec fn trim(s: Seq<char>) -> Seq<char> {
    trim_end(trim_start(s))
}

/// The lower case of an ASCII letter; any other character itself.
pub open spec fn lower_char(c: char) -> char {
    if 'A' <= c && c <= 'Z' {
        ((c as u8) + 32) as u8 as char
    } else {
        c
    }
}

/// `s` with its ASCII letters in lower case.
pub open spec fn lower(s: Seq<char>) -> Seq<char> {
    s.map_values(|c: char| lower_char(c))
}

pub fn white_char(c: char) -> (r: bool)
    ensures
        r == is_white(c),
{
    let n = c as u32;
    (0x9 <= n && n <= 0xD) || n == 0x20 || n == 0x85 || n == 0xA0 || n == 0x1680
        || (0x2000 <= n && n <= 0x200A) || n == 0x2028 || n == 0x2029 || n == 0x202F
        || n == 0x205F || n == 0x3000
}

pub fn to_lower_char(c: char) -> (r: char)
    ensures
        r == lower_char(c),
{
    if 'A' <= c && c <= 'Z' {
        ((c as u8) + 32) as char
    } else {
        c
    }
}

/// The characters of `s`.
pub fn chars_of(s: &str) -> (r: Vec<char>)
    ensures
        r@ == s@,
{
    let mut r: Vec<char> = Vec::new();
    for c in it: s.chars()
        invariant
            r@ == s@.take(it.index() as int),
            it.seq() == s@,
    {
        r.push(c);
    }
    r
}

/// A string made of the given characters.
pub fn string_of(v: &Vec<char>) -> (r: String)
    ensures
        r@ == v@,
{
    let mut r = String::new();
    let n = v.len();
    for i in 0..n
        invariant
            n == v@.len(),
            r@ == v@.take(i as int),
    {
        r.push(v[i]);
    }
    r
}

/// The characters of `v` from `from` up to `to`.
pub fn part(v: &Vec<char>, from: usize, to: usize) -> (r: Vec<char>)
    requires
        from <= to <= v@.len(),
    ensures
        r@ == v@.subrange(from as int, to as int),
{
    let mut r: Vec<char> = Vec::new();
    for i in from..to
        invariant
            from <= i <= to <= v@.len(),
            r@ == v@.subrange(from as int, i as int),
    {
        r.push(v[i]);
    }
    r
}

proof fn lemma_trim_start(s: Seq<char>, i: int)
    requires
        0 <= i <= s.len(),
        forall|j: int| 0 <= j < i ==> is_white(s[j]),
    ensures
        trim_start(s) == trim_start(s.skip(i)),
    decreases i,
{
    if i > 0 {
        lemma_trim_start(s.drop_first(), i - 1);
        assert(s.drop_first().skip(i - 1) =~= s.skip(i));
    } else {
        assert(s.skip(0) =~= s);
    }
}

proof fn lemma_trim_end(s: Seq<char>, i: int)
    requires
        0 <= i <= s.len(),
        forall|j: int| i <= j < s.len() ==> is_white(s[j]),
    ensures
        trim_end(s) == trim_end(s.take(i)),
    decreases s.len() - i,
{
    if i < s.len() {
        lemma_trim_end(s.drop_last(), i);
        assert(s.drop_last().take(i) =~= s.take(i));
    } else {
        assert(s.take(i) =~= s);
    }
}

proof fn lemma_trim_end_part(s: Seq<char>)
    ensures
        exists|j: int|
            0 <= j <= s.len() && trim_end(s) == #[trigger] s.take(j) && (j > 0 ==> !is_white(
                s[j - 1],
            )) && (forall|k: int| j <= k < s.len() ==> is_white(s[k])),
    decreases s.len(),
{
    if s.len() > 0 && is_white(s.last()) {
        lemma_trim_end_part(s.drop_last());
        let t = s.drop_last();
        let j = choose|j: int|
            0 <= j <= t.len() && trim_end(t) == #[trigger] t.take(j) && (j > 0 ==> !is_white(
                t[j - 1],
            )) && (forall|k: int| j <= k < t.len() ==> is_white(t[k]));
        assert(t.take(j) =~= s.take(j));
        assert forall|k: int| j <= k < s.len() implies is_white(s[k]) by {
            if k < t.len() {
                assert(s[k] == t[k]);
            }
        }
    } else {
        assert(s.take(s.len() as int) =~= s);
    }
}

proof fn lemma_trim_start_part(s: Seq<char>)
    ensures
        exists|i: int|
            0 <= i <= s.len() && trim_start(s) == #[trigger] s.skip(i) && (i < s.len()
                ==> !is_white(s[i])) && (forall|k: int| 0 <= k < i ==> is_white(s[k])),
    decreases s.len(),
{
    if s.len() > 0 && is_white(s[0]) {
        lemma_trim_start_part(s.drop_first());
        let t = s.drop_first();
        let i = choose|i: int|
            0 <= i <= t.len() && trim_start(t) == #[trigger] t.skip(i) && (i < t.len()
                ==> !is_white(t[i])) && (forall|k: int| 0 <= k < i ==> is_white(t[k]));
        assert(t.skip(i) =~= s.skip(i + 1));
        assert forall|k: int| 0 <= k < i + 1 implies is_white(s[k]) by {
            if k > 0 {
                assert(s[k] == t[k - 1]);
            }
        }
    } else {
        assert(s.skip(0) =~= s);
    }
}

/// What is left by trimming is a part of the text that neither starts nor ends
/// with white space, and before and after it there was nothing else; trimming it again
/// changes nothing.
pub proof fn law_trim(s: Seq<char>) -> (span: (int, int))
    ensures
        0 <= span.0 <= span.1 <= s.len(),
        trim(s) == s.subrange(span.0, span.1),
        forall|k: int| 0 <= k < span.0 ==> is_white(s[k]),
        forall|k: int| span.1 <= k < s.len() ==> is_white(s[k]),
        trim(s).len() > 0 ==> !is_white(trim(s)[0]) && !is_white(trim(s).last()),
        trim(trim(s)) == trim(s),
{
    lemma_trim_start_part(s);
    let t = trim_start(s);
    let i = choose|i: int|
        0 <= i <= s.len() && t == #[trigger] s.skip(i) && (i < s.len() ==> !is_white(s[i])) && (
        forall|k: int| 0 <= k < i ==> is_white(s[k]));
    lemma_trim_end_part(t);
    let j = choose|j: int|
        0 <= j <= t.len() && trim_end(t) == #[trigger] t.take(j) && (j > 0 ==> !is_white(
            t[j - 1],
        )) && (forall|k: int| j <= k < t.len() ==> is_white(t[k]));
    assert(t.take(j) =~= s.subrange(i, i + j));
    assert forall|k: int| i + j <= k < s.len() implies is_white(s[k]) by {
        assert(s[k] == t[k - i]);
    }
    (i, i + j)
}

/// The characters without the white space at the two ends.
pub fn trimmed(v: &Vec<char>) -> (r: Vec<char>)
    ensures
        r@ == trim(v@),
{
    let n = v.len();
    let mut from: usize = 0;
    while from < n && white_char(v[from])
        invariant
            n == v@.len(),
            from <= n,
            forall|j: int| 0 <= j < from ==> is_white(v@[j]),
        decreases n - from,
    {
        from = from + 1;
    }
    let mut to: usize = n;
    while from < to && white_char(v[to - 1])
        invariant
            n == v@.len(),
            from <= to <= n,
            forall|j: int| to <= j < n ==> is_white(v@[j]),
        decreases to,
    {
        to = to - 1;
    }
    proof {
        lemma_trim_start(v@, from as int);
        let rest = v@.skip(from as int);
        assert(trim_start(rest) == rest);
        lemma_trim_end(rest, to - from);
        assert(rest.take(to - from) =~= v@.subrange(from as int, to as int));
        let mid = v@.subrange(from as int, to as int);
        assert(trim_end(mid) == mid);
    }
    part(v, from, to)
}

/// The characters with their ASCII letters in lower case.
pub fn lowered(v: &Vec<char>) -> (r: Vec<char>)
    ensures
        r@ == lower(v@),
{
    let mut r: Vec<char> = Vec::new();
    let n = v.len();
    for i in 0..n
        invariant
            n == v@.len(),
            r@ == lower(v@).take(i as int),
    {
        r.push(to_lower_char(v[i]));
    }
    assert(lower(v@).take(n as int) =~= lower(v@));
    r
}

/// Whether the characters are those of `s`.
pub fn is_text(v: &Vec<char>, s: &str) -> (r: bool)
    ensures
        r == (v@ == s@),
{
    let w = chars_of(s);
    if v.len() != w.len() {
        return false;
    }
    let n = v.len();
    for i in 0..n
        invariant
            n == v@.len() == w@.len(),
            w@ == s@,
            forall|j: int| 0 <= j < i ==> v@[j] == w@[j],
    {
        if v[i] != w[i] {
            return false;
        }
    }
    assert(v@ =~= w@);
    true
}

/// Whether two texts are the same.
pub fn same_text(a: &str, b: &str) -> (r: bool)
    ensures
        r == (a@ == b@),
{
    is_text(&chars_of(a), b)
}

/// Whether two texts differ in the case of ASCII letters only.
pub fn same_ignoring_case(a: &str, b: &str) -> (r: bool)
    ensures
        r == (lower(a@) == lower(b@)),
{
    let x = lowered(&chars_of(a));
    let y = string_of(&lowered(&chars_of(b)));
    is_text(&x, y.as_str())
}

/// Whether `pattern` stands in `s` at index `at`.
pub open spec fn stands_at(s: Seq<char>, pattern: Seq<char>, at: int) -> bool {
    0 <= at <= s.len() - pattern.len() && s.subrange(at, at + pattern.len()) == pattern
}

/// Whether `pattern` occurs in `s`.
pub open spec fn contains(s: Seq<char>, pattern: Seq<char>) -> bool {
    exists|at: int| stands_at(s, pattern, at)
}

fn at_index(v: &Vec<char>, w: &Vec<char>, at: usize) -> (r: bool)
    ensures
        r == stands_at(v@, w@, at as int),
{
    if v.len() < w.len() || at > v.len() - w.len() {
        return false;
    }
    let n = w.len();
    let end = at + n;
    for i in 0..n
        invariant
            n == w@.len(),
            end == at + n,
            end <= v@.len(),
            forall|j: int| 0 <= j < i ==> v@[at + j] == w@[j],
    {
        if v[at + i] != w[i] {
            assert(v@.subrange(at as int, at + w@.len())[i as int] != w@[i as int]);
            return false;
        }
    }
    assert(v@.subrange(at as int, at + w@.len()) =~= w@);
    true
}

/// Whether the text `s` occurs in the characters.
pub fn has_text(v: &Vec<char>, s: &str) -> (r: bool)
    ensures
        r == contains(v@, s@),
{
    let w = chars_of(s);
    if v.len() < w.len() {
        return false;
    }
    let last = v.len() - w.len();
    let mut at: usize = 0;
    loop
        invariant
            w@ == s@,
            last == v@.len() - w@.len(),
            at <= last,
            forall|j: int| 0 <= j < at ==> !stands_at(v@, w@, j),
        decreases last - at,
    {
        if at_index(v, &w, at) {
            return true;
        }
        if at == last {
            return false;
        }
        at = at + 1;
    }
}

/// Whether the characters start with the text `s`.
pub fn starts_with(v: &Vec<char>, s: &str) -> (r: bool)
    ensures
        r == stands_at(v@, s@, 0),
{
    at_index(v, &chars_of(s), 0)
}

/// The index of the first `c` in `s`, and the length of `s` where there is none.
pub open spec fn position(s: Seq<char>, c: char) -> int
    decreases s.len(),
{
    if s.len() == 0 || s[0] == c {
        0
    } else {
        1 + position(s.drop_first(), c)
    }
}

/// What `position` says: `c` stands there and nowhere before.
pub proof fn lemma_position(s: Seq<char>, c: char)
    ensures
        0 <= position(s, c) <= s.len(),
        position(s, c) < s.len() ==> s[position(s, c)] == c,
        forall|j: int| 0 <= j < position(s, c) ==> s[j] != c,
    decreases s.len(),
{
    if s.len() != 0 && s[0] != c {
        let t = s.drop_first();
        lemma_position(t, c);
        assert forall|j: int| 0 <= j < position(s, c) implies s[j] != c by {
            if j > 0 {
                assert(s[j] == t[j - 1]);
            }
        }
    }
}

/// An index at which `c` stands, with no `c` before it, is the first one.
pub proof fn lemma_first_position(s: Seq<char>, c: char, i: int)
    requires
        0 <= i <= s.len(),
        i < s.len() ==> s[i] == c,
        forall|j: int| 0 <= j < i ==> s[j] != c,
    ensures
        position(s, c) == i,
{
    lemma_position(s, c);
}

/// The index of the first `c`, and the length where there is none.
pub fn position_of(v: &Vec<char>, c: char) -> (r: usize)
    ensures
        r == position(v@, c),
        r <= v@.len(),
{
    let n = v.len();
    let mut i: usize = 0;
    while i < n && v[i] != c
        invariant
            n == v@.len(),
            i <= n,
            forall|j: int| 0 <= j < i ==> v@[j] != c,
        decreases n - i,
    {
        i = i + 1;
    }
    proof {
        lemma_first_position(v@, c, i as int);
    }
    i
}

/// The characters of each string.
pub open spec fn views(v: Seq<String>) -> Seq<Seq<char>> {
    v.map_values(|s: String| s@)
}

/// The texts one after another, with `separator` between each two.
pub open spec fn join(texts: Seq<Seq<char>>, separator: Seq<char>) -> Seq<char>
    decreases texts.len(),
{
    if texts.len() == 0 {
        Seq::empty()
    } else if texts.len() == 1 {
        texts[0]
    } else {
        join(texts.drop_last(), separator) + separator + texts.last()
    }
}

/// Joins the strings with `separator` between each two.
pub fn joined(v: &Vec<String>, separator: &str) -> (r: String)
    ensures
        r@ == join(views(v@), separator@),
{
    let mut r = String::new();
    let n = v.len();
    for i in 0..n
        invariant
            n == v@.len(),
            r@ == join(views(v@).take(i as int), separator@),
    {
        proof {
            let t = views(v@).take(i + 1);
            assert(t.drop_last() =~= views(v@).take(i as int));
            assert(t.last() == v@[i as int]@);
            assert(i == 0 ==> join(views(v@).take(0), separator@) =~= Seq::<char>::empty());
            assert(Seq::<char>::empty() + t.last() =~= t.last());
        }
        if i > 0 {
            r.append(separator);
        }
        r.append(v[i].as_str());
    }
    assert(views(v@).take(n as int) =~= views(v@));
    r
}

/// The text made of `a` and then `b`.
pub fn pair(a: &str, b: &str) -> (r: String)
    ensures
        r@ == a@ + b@,
{
    let mut r = String::new();
    r.append(a);
    r.append(b);
    assert(Seq::<char>::empty() + a@ =~= a@);
    r
}

pub open spec fn is_digit(c: char) -> bool {
    '0' <= c && c <= '9'
}

pub open spec fn digit_value(c: char) -> nat {
    (c as int - '0' as int) as nat
}

/// Whether every character is a decimal digit.
pub open spec fn all_digits(s: Seq<char>) -> bool {
    forall|i: int| 0 <= i < s.len() ==> is_digit(#[trigger] s[i])
}

/// The number that the digits of `s` write in base ten.
pub open spec fn digits_value(s: Seq<char>) -> nat
    decreases s.len(),
{
    if s.len() == 0 {
        0
    } else {
        10 * digits_value(s.drop_last()) + digit_value(s.last())
    }
}

pub fn digits_only(v: &Vec<char>) -> (r: bool)
    ensures
        r == all_digits(v@),
{
    let n = v.len();
    for i in 0..n
        invariant
            n == v@.len(),
            forall|j: int| 0 <= j < i ==> is_digit(#[trigger] v@[j]),
    {
        if !('0' <= v[i] && v[i] <= '9') {
            return false;
        }
    }
    true
}

pub open spec fn digit_char(n: nat) -> char {
    (48 + n) as u8 as char
}

/// The decimal digits of `n`, without leading zeros.
pub open spec fn decimal(n: nat) -> Seq<char>
    decreases n,
{
    if n < 10 {
        seq![digit_char(n)]
    } else {
        decimal(n / 10).push(digit_char(n % 10))
    }
}

/// Writes `n` in decimal digits.
pub fn decimal_text(n: u128) -> (r: String)
    ensures
        r@ == decimal(n as nat),
{
    let mut back: Vec<char> = Vec::new();
    let mut rest: u128 = n;
    while rest >= 10
        invariant
            decimal(n as nat) == decimal(rest as nat) + back@.reverse(),
        decreases rest,
    {
        let ghost before = back@;
        let d = (48 + (rest % 10) as u8) as char;
        proof {
            assert(d == digit_char((rest as nat) % 10));
            assert(before.push(d).reverse() =~= seq![d] + before.reverse());
            assert(decimal((rest / 10) as nat).push(d) + before.reverse() =~= decimal(
                (rest / 10) as nat,
            ) + (seq![d] + before.reverse()));
        }
        back.push(d);
        rest = rest / 10;
    }
    let mut r = String::new();
    let top = (48 + rest as u8) as char;
    r.push(top);
    let mut i: usize = back.len();
    assert(r@ =~= decimal(rest as nat));
    while i > 0
        invariant
            i <= back@.len(),
            r@ == decimal(rest as nat) + back@.reverse().take(back@.len() - i),
        decreases i,
    {
        i = i - 1;
        assert(back@.reverse().take(back@.len() - i) =~= back@.reverse().take(
            back@.len() - i - 1,
        ).push(back@[i as int]));
        r.push(back[i]);
    }
    assert(back@.reverse().take(back@.len() as int) =~= back@.reverse());
    r
}

/// Whether `a` comes before `b` in the order of their first different character.
pub open spec fn before(a: Seq<char>, b: Seq<char>) -> bool
    decreases a.len(),
{
    if b.len() == 0 {
        false
    } else if a.len() == 0 {
        true
    } else if a[0] != b[0] {
        a[0] < b[0]
    } else {
        before(a.drop_first(), b.drop_first())
    }
}

proof fn lemma_before_transitive(a: Seq<char>, b: Seq<char>, c: Seq<char>)
    requires
        before(a, b),
        before(b, c),
    ensures
        before(a, c),
    decreases a.len(),
{
    if a.len() > 0 && a[0] == b[0] && b[0] == c[0] {
        lemma_before_transitive(a.drop_first(), b.drop_first(), c.drop_first());
    }
}

proof fn lemma_before_total(a: Seq<char>, b: Seq<char>)
    ensures
        before(a, b) || before(b, a) || a == b,
        !(before(a, b) && before(b, a)),
        a == b ==> !before(a, b),
    decreases a.len(),
{
    if a.len() > 0 && b.len() > 0 && a[0] == b[0] {
        lemma_before_total(a.drop_first(), b.drop_first());
        if a.drop_first() == b.drop_first() {
            assert(a =~= seq![a[0]] + a.drop_first());
            assert(b =~= seq![b[0]] + b.drop_first());
        }
    } else if a.len() == 0 && b.len() == 0 {
        assert(a =~= b);
    }
}

/// The order of texts is a strict total order.
pub proof fn lemma_before_order()
    ensures
        forall|a: Seq<char>, b: Seq<char>, c: Seq<char>|
            #[trigger] before(a, b) && #[trigger] before(b, c) ==> before(a, c),
        forall|a: Seq<char>, b: Seq<char>|
            #[trigger] before(a, b) ==> !before(b, a) && a != b,
        forall|a: Seq<char>, b: Seq<char>|
            !(#[trigger] before(a, b)) ==> before(b, a) || a == b,
{
    assert forall|a: Seq<char>, b: Seq<char>, c: Seq<char>| #[trigger]
        before(a, b) && #[trigger] before(b, c) implies before(a, c) by {
        lemma_before_transitive(a, b, c);
    }
    assert forall|a: Seq<char>, b: Seq<char>| #[trigger] before(a, b) implies !before(b, a) && a
        != b by {
        lemma_before_total(a, b);
    }
    assert forall|a: Seq<char>, b: Seq<char>| !(#[trigger] before(a, b)) implies before(b, a) || a
        == b by {
        lemma_before_total(a, b);
    }
}

/// The order of two texts.
pub fn order(a: &str, b: &str) -> (r: Side)
    ensures
        r is Below <==> before(a@, b@),
        r is Above <==> before(b@, a@),
        r is Equal <==> a@ == b@,
{
    let x = chars_of(a);
    let y = chars_of(b);
    let mut i: usize = 0;
    assert(x@.skip(0) =~= x@);
    assert(y@.skip(0) =~= y@);
    while i < x.len() && i < y.len()
        invariant
            x@ == a@,
            y@ == b@,
            i <= x@.len(),
            i <= y@.len(),
            x@.take(i as int) == y@.take(i as int),
            before(x@, y@) == before(x@.skip(i as int), y@.skip(i as int)),
            before(y@, x@) == before(y@.skip(i as int), x@.skip(i as int)),
        decreases x@.len() - i,
    {
        if x[i] != y[i] {
            assert(x@.skip(i as int)[0] == x@[i as int]);
            assert(y@.skip(i as int)[0] == y@[i as int]);
            if x[i] < y[i] {
                return Side::Below;
            } else {
                return Side::Above;
            }
        }
        assert(x@.skip(i as int).drop_first() =~= x@.skip(i + 1));
        assert(y@.skip(i as int).drop_first() =~= y@.skip(i + 1));
        assert(x@.take(i + 1) =~= y@.take(i + 1)) by {
            assert(x@.take(i + 1) =~= x@.take(i as int).push(x@[i as int]));
            assert(y@.take(i + 1) =~= y@.take(i as int).push(y@[i as int]));
        }
        i = i + 1;
    }
    if i < y.len() {
        Side::Below
    } else if i < x.len() {
        Side::Above
    } else {
        assert(x@ =~= x@.take(i as int));
        assert(y@ =~= y@.take(i as int));
        Side::Equal
    }
}

/// White space around a text is what trimming takes away.
pub proof fn law_trim_takes_the_space(left: Seq<char>, s: Seq<char>, right: Seq<char>)
    requires
        forall|k: int| 0 <= k < left.len() ==> is_white(left[k]),
        forall|k: int| 0 <= k < right.len() ==> is_white(right[k]),
        s.len() > 0 ==> !is_white(s[0]) && !is_white(s.last()),
    ensures
        trim(left + s + right) == s,
{
    let all = left + s + right;
    lemma_trim_start(all, left.len() as int);
    let rest = all.skip(left.len() as int);
    assert(rest =~= s + right);
    if s.len() > 0 {
        assert(trim_start(rest) == rest);
        lemma_trim_end(rest, s.len() as int);
        assert(rest.take(s.len() as int) =~= s);
        assert(trim_end(s) == s);
    } else {
        assert(rest =~= right);
        lemma_trim_start(right, right.len() as int);
        assert(right.skip(right.len() as int) =~= s);
        assert(trim_start(s) == s);
        assert(trim_end(s) == s);
    }
}

/// In lower case a text has the same length, and each letter from `A` to `Z` has become
/// the one that stands 32 places after it; nothing else has changed.
pub proof fn law_lower(s: Seq<char>, i: int)
    requires
        0 <= i < s.len(),
    ensures
        lower(s).len() == s.len(),
        65 <= s[i] as int <= 90 ==> lower(s)[i] as int == s[i] as int + 32,
        !(65 <= s[i] as int <= 90) ==> lower(s)[i] == s[i],
{
}

/// A pattern occurs in a text where the text is something, the pattern and something.
pub proof fn law_contains(s: Seq<char>, pattern: Seq<char>)
    ensures
        contains(s, pattern) <==> exists|a: Seq<char>, b: Seq<char>| #[trigger]
            (a + pattern + b) == s,
{
    if contains(s, pattern) {
        let at = choose|at: int| stands_at(s, pattern, at);
        let a = s.take(at);
        let b = s.skip(at + pattern.len());
        assert forall|k: int| 0 <= k < pattern.len() implies s[at + k] == pattern[k] by {
            assert(s.subrange(at, at + pattern.len())[k] == pattern[k]);
        }
        assert(a + pattern + b =~= s);
    }
    if exists|a: Seq<char>, b: Seq<char>| #[trigger] (a + pattern + b) == s {
        let (a, b) = choose|a: Seq<char>, b: Seq<char>| #[trigger] (a + pattern + b) == s;
        assert(s.subrange(a.len() as int, (a.len() + pattern.len()) as int) =~= pattern);
        assert(stands_at(s, pattern, a.len() as int));
    }
}

/// A pattern stands at a place where each of its characters does.
pub proof fn law_stands_at(s: Seq<char>, pattern: Seq<char>, at: int)
    ensures
        stands_at(s, pattern, at) <==> {
            &&& 0 <= at && at + pattern.len() <= s.len()
            &&& forall|k: int| 0 <= k < pattern.len() ==> s[at + k] == #[trigger] pattern[k]
        },
{
    if stands_at(s, pattern, at) {
        assert forall|k: int| 0 <= k < pattern.len() implies s[at + k] == #[trigger] pattern[k] by {
            assert(s.subrange(at, at + pattern.len())[k] == pattern[k]);
        }
    }
    if 0 <= at && at + pattern.len() <= s.len() && (forall|k: int|
        0 <= k < pattern.len() ==> s[at + k] == #[trigger] pattern[k]) {
        assert(s.subrange(at, at + pattern.len()) =~= pattern);
    }
}

/// Nothing joined is nothing, and one more text comes after a separator, unless it is
/// the first.
pub proof fn law_join(texts: Seq<Seq<char>>, one: Seq<char>, separator: Seq<char>)
    ensures
        join(Seq::empty(), separator).len() == 0,
        texts.len() == 0 ==> join(texts.push(one), separator) == one,
        texts.len() > 0 ==> join(texts.push(one), separator) == join(texts, separator) + separator
            + one,
{
    assert(texts.push(one).drop_last() =~= texts);
}

/// Each string is seen as its characters.
pub proof fn law_views(v: Seq<String>)
    ensures
        views(v).len() == v.len(),
        forall|i: int| 0 <= i < v.len() ==> #[trigger] views(v)[i] == v[i]@,
{
}

/// Nothing writes zero, and one more digit counts what stands before it ten times.
pub proof fn law_digits_value(s: Seq<char>, c: char)
    requires
        48 <= c as int <= 57,
    ensures
        digits_value(Seq::empty()) == 0,
        digits_value(s.push(c)) == 10 * digits_value(s) + (c as int - 48),
{
    assert(s.push(c).drop_last() =~= s);
}

/// A text is of digits where each character is one from `0` to `9`.
pub proof fn law_all_digits(s: Seq<char>)
    ensures
        all_digits(s) <==> forall|i: int|
            0 <= i < s.len() ==> 48 <= (#[trigger] s[i]) as int <= 57,
{
    if all_digits(s) {
        assert forall|i: int| 0 <= i < s.len() implies 48 <= (#[trigger] s[i]) as int <= 57 by {
            assert(is_digit(s[i]));
        }
    }
    if forall|i: int| 0 <= i < s.len() ==> 48 <= (#[trigger] s[i]) as int <= 57 {
        assert forall|i: int| 0 <= i < s.len() implies is_digit(#[trigger] s[i]) by {}
    }
}

/// A number is written in digits that write it, without a zero before them.
pub proof fn law_decimal(n: nat)
    ensures
        decimal(n).len() > 0,
        forall|i: int| 0 <= i < decimal(n).len() ==> 48 <= (#[trigger] decimal(n)[i]) as int <= 57,
        digits_value(decimal(n)) == n,
        n > 0 ==> decimal(n)[0] != '0',
        n == 0 ==> decimal(n) == seq!['0'],
    decreases n,
{
    if n < 10 {
        let s = decimal(n);
        assert(s.len() == 1);
        assert(s[0] as int == 48 + n);
        assert(s =~= Seq::empty().push(s[0]));
        law_digits_value(Seq::empty(), s[0]);
    } else {
        law_decimal(n / 10);
        let c = digit_char(n % 10);
        assert(c as int == 48 + n % 10);
        law_digits_value(decimal(n / 10), c);
        assert(decimal(n)[0] == decimal(n / 10)[0]);
        assert forall|i: int| 0 <= i < decimal(n).len() implies 48 <= (#[trigger] decimal(
            n,
        )[i]) as int <= 57 by {
            if i < decimal(n / 10).len() {
                assert(decimal(n)[i] == decimal(n / 10)[i]);
            }
        }
    }
}

/// One text comes before another where they are the same up to a place at which the
/// one ends, or has the smaller character.
pub proof fn law_before(a: Seq<char>, b: Seq<char>, i: int)
    requires
        0 <= i <= a.len(),
        i <= b.len(),
        forall|k: int| 0 <= k < i ==> a[k] == b[k],
        i < a.len() && i < b.len() ==> a[i] != b[i],
    ensures
        i == a.len() && i < b.len() ==> before(a, b),
        i == b.len() ==> !before(a, b),
        i < a.len() && i < b.len() ==> (before(a, b) <==> (a[i] as int) < (b[i] as int)),
    decreases i,
{
    if i > 0 {
        let x = a.drop_first();
        let y = b.drop_first();
        assert(a[0] == b[0]);
        assert forall|k: int| 0 <= k < i - 1 implies x[k] == y[k] by {
            assert(a[k + 1] == b[k + 1]);
        }
        law_before(x, y, i - 1);
    }
}

} // verus!
