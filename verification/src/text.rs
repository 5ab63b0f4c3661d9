//! Character-level helpers for strings.

use vstd::prelude::*;
use vstd::multiset::Multiset;
use crate::collections::{distinct_keys, has_key, key_set, position_of, Key};

verus! {

/// Appends one character to a string.
///
/// Wraps `String::push`, which adds the given `char` to the end of the string.
#[verifier::external_body]
pub(crate) fn push_char(s: &mut String, c: char)
    ensures
        final(s)@ == old(s)@.push(c),
{
    s.push(c);
}

/// The characters of a string, in order.
pub fn chars_of(s: &str) -> (v: Vec<char>)
    ensures
        v@ == s@,
{
    let mut v: Vec<char> = Vec::new();
    for c in it: s.chars()
        invariant
            v@ == it.seq().take(it.index() as int),
            it.seq() == s@,
    {
        v.push(c);
    }
    v
}

/// Builds a string from characters.
pub fn string_of(v: &Vec<char>) -> (s: String)
    ensures
        s@ == v@,
{
    let mut s = String::new();
    let mut i: usize = 0;
    while i < v.len()
        invariant
            i <= v.len(),
            s@ == v@.take(i as int),
        decreases v.len() - i,
    {
        push_char(&mut s, v[i]);
        i += 1;
        assert(v@.take(i as int) == v@.take(i - 1).push(v@[i - 1]));
    }
    assert(v@.take(v.len() as int) == v@);
    s
}

/// The character of a decimal digit.
pub open spec fn digit_char(d: int) -> char
    recommends
        0 <= d < 10,
{
    if d == 0 {
        '0'
    } else if d == 1 {
        '1'
    } else if d == 2 {
        '2'
    } else if d == 3 {
        '3'
    } else if d == 4 {
        '4'
    } else if d == 5 {
        '5'
    } else if d == 6 {
        '6'
    } else if d == 7 {
        '7'
    } else if d == 8 {
        '8'
    } else {
        '9'
    }
}

/// The decimal digits of a natural number, without leading zeros.
pub open spec fn decimal(n: nat) -> Seq<char>
    decreases n,
{
    if n < 10 {
        seq![digit_char(n as int)]
    } else {
        decimal(n / 10).push(digit_char((n % 10) as int))
    }
}

/// The decimal form of an integer, with a minus sign if it is negative.
pub open spec fn signed_decimal(n: int) -> Seq<char> {
    if n < 0 {
        seq!['-'] + decimal((-n) as nat)
    } else {
        decimal(n as nat)
    }
}

fn digit(d: u64) -> (c: char)
    requires
        d < 10,
    ensures
        c == digit_char(d as int),
{
    if d == 0 {
        '0'
    } else if d == 1 {
        '1'
    } else if d == 2 {
        '2'
    } else if d == 3 {
        '3'
    } else if d == 4 {
        '4'
    } else if d == 5 {
        '5'
    } else if d == 6 {
        '6'
    } else if d == 7 {
        '7'
    } else if d == 8 {
        '8'
    } else {
        '9'
    }
}

/// Appends the decimal digits of `n` to `out`.
pub fn push_decimal(out: &mut Vec<char>, n: u64)
    ensures
        final(out)@ == old(out)@ + decimal(n as nat),
    decreases n,
{
    if n < 10 {
        out.push(digit(n));
        assert(out@ =~= old(out)@ + decimal(n as nat));
    } else {
        push_decimal(out, n / 10);
        out.push(digit(n % 10));
        assert(out@ =~= old(out)@ + decimal(n as nat));
    }
}

/// Appends the decimal form of a signed integer to `out`.
pub fn push_signed_decimal(out: &mut Vec<char>, n: i64)
    ensures
        final(out)@ == old(out)@ + signed_decimal(n as int),
{
    if n < 0 {
        out.push('-');
        let m: u64 = if n == i64::MIN {
            9223372036854775808u64
        } else {
            (-n) as u64
        };
        push_decimal(out, m);
        assert(out@ =~= old(out)@ + signed_decimal(n as int));
    } else {
        push_decimal(out, n as u64);
    }
}

/// Appends the characters of `s` to `out`.
pub fn push_str(out: &mut Vec<char>, s: &str)
    ensures
        final(out)@ == old(out)@ + s@,
{
    for c in it: s.chars()
        invariant
            out@ == old(out)@ + it.seq().take(it.index() as int),
            it.seq() == s@,
    {
        out.push(c);
        assert(old(out)@ + it.seq().take(it.index() as int).push(c) =~= (old(out)@ + it.seq().take(it.index() as int)).push(c));
        assert(it.seq().take(it.index() + 1) =~= it.seq().take(it.index() as int).push(c));
    }
    assert(s@.take(s@.len() as int) =~= s@);
}

/// Whether `c` is white space: the characters that Unicode gives the
/// property White_Space.
pub open spec fn is_space(c: char) -> bool {
    ||| ('\u{9}' <= c && c <= '\u{d}')
    ||| c == ' '
    ||| c == '\u{85}'
    ||| c == '\u{a0}'
    ||| c == '\u{1680}'
    ||| ('\u{2000}' <= c && c <= '\u{200a}')
    ||| c == '\u{2028}'
    ||| c == '\u{2029}'
    ||| c == '\u{202f}'
    ||| c == '\u{205f}'
    ||| c == '\u{3000}'
}

/// A text without the white space at its end.
pub open spec fn trimmed_end(s: Seq<char>) -> Seq<char>
    decreases s.len(),
{
    if s.len() > 0 && is_space(s.last()) {
        trimmed_end(s.drop_last())
    } else {
        s
    }
}

/// A text without the white space at its start.
pub open spec fn trimmed_start(s: Seq<char>) -> Seq<char>
    decreases s.len(),
{
    if s.len() > 0 && is_space(s[0]) {
        trimmed_start(s.drop_first())
    } else {
        s
    }
}

/// A text without the white space at its start and at its end.
pub open spec fn trimmed(s: Seq<char>) -> Seq<char> {
    trimmed_end(trimmed_start(s))
}

/// Whether `s` starts with `prefix`.
pub open spec fn starts_with(s: Seq<char>, prefix: Seq<char>) -> bool {
    prefix.len() <= s.len() && s.subrange(0, prefix.len() as int) == prefix
}

/// Whether `part` occurs in `s`.
pub open spec fn has_part(s: Seq<char>, part: Seq<char>) -> bool {
    exists|i: int| 0 <= i <= s.len() - part.len() && #[trigger] s.subrange(i, i + part.len()) == part
}

/// The parts of a text between the occurrences of the character `sep`.
/// A text without `sep` has one part, itself.
pub open spec fn split_at(s: Seq<char>, sep: char) -> Seq<Seq<char>>
    decreases s.len(),
{
    if s.len() == 0 {
        seq![Seq::<char>::empty()]
    } else if s.last() == sep {
        split_at(s.drop_last(), sep).push(Seq::<char>::empty())
    } else {
        let parts = split_at(s.drop_last(), sep);
        parts.drop_last().push(parts.last().push(s.last()))
    }
}

/// The texts of `parts` in a row, with `sep` between each two.
pub open spec fn joined(parts: Seq<Seq<char>>, sep: Seq<char>) -> Seq<char>
    decreases parts.len(),
{
    if parts.len() == 0 {
        Seq::<char>::empty()
    } else if parts.len() == 1 {
        parts[0]
    } else {
        joined(parts.drop_last(), sep) + sep + parts.last()
    }
}

/// Whether `a` comes before `b` in the order of texts: character by
/// character, by code point; a text comes after its proper prefixes.
pub open spec fn text_lt(a: Seq<char>, b: Seq<char>) -> bool
    decreases a.len(),
{
    if b.len() == 0 {
        false
    } else if a.len() == 0 {
        true
    } else if a[0] != b[0] {
        a[0] < b[0]
    } else {
        text_lt(a.drop_first(), b.drop_first())
    }
}

/// The lower-case form of a text.
pub uninterp spec fn lowercase_of(s: Seq<char>) -> Seq<char>;

/// The lower-case form of a text.
///
/// Wraps `str::to_lowercase`, whose result depends on the text alone; the
/// mapping of characters is that of Unicode and is not written out here.
#[verifier::external_body]
pub(crate) fn lowercase(s: &str) -> (r: String)
    ensures
        r@ == lowercase_of(s@),
{
    s.to_lowercase()
}

/// Whether a character is white space.
pub fn char_is_space(c: char) -> (r: bool)
    ensures
        r == is_space(c),
{
    ('\u{9}' <= c && c <= '\u{d}') || c == ' ' || c == '\u{85}' || c == '\u{a0}' || c == '\u{1680}' || (
    '\u{2000}' <= c && c <= '\u{200a}') || c == '\u{2028}' || c == '\u{2029}' || c == '\u{202f}' || c
        == '\u{205f}' || c == '\u{3000}'
}

proof fn lemma_trimmed_start(s: Seq<char>, i: int)
    requires
        0 <= i <= s.len(),
        forall|j: int| 0 <= j < i ==> is_space(#[trigger] s[j]),
        i < s.len() ==> !is_space(s[i]),
    ensures
        trimmed_start(s) == s.skip(i),
    decreases i,
{
    if i == 0 {
        assert(s.skip(0) =~= s);
    } else {
        let rest = s.drop_first();
        assert forall|j: int| 0 <= j < i - 1 implies is_space(#[trigger] rest[j]) by {
            assert(rest[j] == s[j + 1]);
        }
        lemma_trimmed_start(rest, i - 1);
        assert(rest.skip(i - 1) =~= s.skip(i));
    }
}

proof fn lemma_trimmed_end(s: Seq<char>, n: int)
    requires
        0 <= n <= s.len(),
        forall|j: int| n <= j < s.len() ==> is_space(#[trigger] s[j]),
        n > 0 ==> !is_space(s[n - 1]),
    ensures
        trimmed_end(s) == s.take(n),
    decreases s.len() - n,
{
    if n == s.len() {
        assert(s.take(n) =~= s);
    } else {
        let rest = s.drop_last();
        lemma_trimmed_end(rest, n);
        assert(rest.take(n) =~= s.take(n));
    }
}

/// A text without the white space at its start and end.
pub fn trim(s: &str) -> (r: &str)
    ensures
        r@ == trimmed(s@),
{
    let chars = chars_of(s);
    let mut start: usize = 0;
    while start < chars.len() && char_is_space(chars[start])
        invariant
            start <= chars.len(),
            forall|j: int| 0 <= j < start ==> is_space(#[trigger] chars@[j]),
        decreases chars.len() - start,
    {
        start += 1;
    }
    let mut end: usize = chars.len();
    while end > start && char_is_space(chars[end - 1])
        invariant
            start <= end <= chars.len(),
            forall|j: int| end <= j < chars.len() ==> is_space(#[trigger] chars@[j]),
        decreases end,
    {
        end -= 1;
    }
    proof {
        lemma_trimmed_start(chars@, start as int);
        let rest = chars@.skip(start as int);
        assert forall|j: int| end - start <= j < rest.len() implies is_space(#[trigger] rest[j]) by {
            assert(rest[j] == chars@[j + start]);
        }
        if end > start {
            assert(rest[end - start - 1] == chars@[end - 1]);
        }
        lemma_trimmed_end(rest, end - start);
        assert(rest.take(end - start) =~= chars@.subrange(start as int, end as int));
    }
    s.substring_char(start, end)
}

/// Whether `s` starts with `prefix`.
pub fn text_starts_with(s: &str, prefix: &str) -> (r: bool)
    ensures
        r == starts_with(s@, prefix@),
{
    let a = chars_of(s);
    let b = chars_of(prefix);
    starts_at(&a, 0, &b)
}

/// Whether the characters of `part` stand in `s` from position `at` on.
fn starts_at(s: &Vec<char>, at: usize, part: &Vec<char>) -> (r: bool)
    requires
        at <= s.len(),
    ensures
        r == (at + part.len() <= s.len() && s@.subrange(at as int, at + part.len()) == part@),
{
    if part.len() > s.len() - at {
        return false;
    }
    let mut i: usize = 0;
    while i < part.len()
        invariant
            i <= part.len(),
            at + part.len() <= s.len(),
            forall|j: int| 0 <= j < i ==> s@[at + j] == part@[j],
        decreases part.len() - i,
    {
        if s[at + i] != part[i] {
            assert(s@.subrange(at as int, at + part.len())[i as int] != part@[i as int]);
            return false;
        }
        i += 1;
    }
    assert(s@.subrange(at as int, at + part.len()) =~= part@);
    true
}

/// Whether `part` occurs in `s`.
pub fn contains_text(s: &str, part: &str) -> (r: bool)
    ensures
        r == has_part(s@, part@),
{
    let a = chars_of(s);
    let b = chars_of(part);
    if b.len() > a.len() {
        return false;
    }
    let last = a.len() - b.len();
    let mut i: usize = 0;
    while i <= last
        invariant
            i <= last + 1,
            last == a.len() - b.len(),
            a@ == s@,
            b@ == part@,
            forall|j: int| 0 <= j < i ==> #[trigger] a@.subrange(j, j + b.len()) != b@,
        decreases last + 1 - i,
    {
        if starts_at(&a, i, &b) {
            return true;
        }
        if i == last {
            return false;
        }
        i += 1;
    }
    false
}

/// Whether `a` comes before `b` in the order of texts.
pub fn text_before(a: &str, b: &str) -> (r: bool)
    ensures
        r == text_lt(a@, b@),
{
    let x = chars_of(a);
    let y = chars_of(b);
    let mut i: usize = 0;
    proof {
        assert(x@.skip(0) =~= x@);
        assert(y@.skip(0) =~= y@);
    }
    loop
        invariant
            i <= x.len(),
            i <= y.len(),
            x@ == a@,
            y@ == b@,
            text_lt(a@, b@) == text_lt(x@.skip(i as int), y@.skip(i as int)),
        decreases x.len() - i,
    {
        if i >= y.len() {
            return false;
        }
        if i >= x.len() {
            return true;
        }
        proof {
            assert(x@.skip(i as int)[0] == x@[i as int]);
            assert(y@.skip(i as int)[0] == y@[i as int]);
            assert(x@.skip(i as int).drop_first() =~= x@.skip(i + 1));
            assert(y@.skip(i as int).drop_first() =~= y@.skip(i + 1));
        }
        if x[i] != y[i] {
            return x[i] < y[i];
        }
        i += 1;
    }
}

/// The order of texts is not reflexive.
pub proof fn lemma_text_lt_irreflexive(a: Seq<char>)
    ensures
        !text_lt(a, a),
    decreases a.len(),
{
    if a.len() > 0 {
        lemma_text_lt_irreflexive(a.drop_first());
    }
}

/// Of two texts one comes before the other, or they are the same text.
pub proof fn lemma_text_lt_total(a: Seq<char>, b: Seq<char>)
    ensures
        text_lt(a, b) || text_lt(b, a) || a == b,
        !(text_lt(a, b) && text_lt(b, a)),
    decreases a.len(),
{
    if a.len() > 0 && b.len() > 0 {
        if a[0] == b[0] {
            lemma_text_lt_total(a.drop_first(), b.drop_first());
            if a.drop_first() == b.drop_first() {
                assert(a =~= seq![a[0]] + a.drop_first());
                assert(b =~= seq![b[0]] + b.drop_first());
            }
        }
    } else if a.len() == 0 && b.len() == 0 {
        assert(a =~= b);
    }
}

/// The order of texts is transitive.
pub proof fn lemma_text_lt_transitive(a: Seq<char>, b: Seq<char>, c: Seq<char>)
    requires
        text_lt(a, b),
        text_lt(b, c),
    ensures
        text_lt(a, c),
    decreases a.len(),
{
    if a.len() > 0 && b.len() > 0 && c.len() > 0 {
        if a[0] == b[0] && b[0] == c[0] {
            lemma_text_lt_transitive(a.drop_first(), b.drop_first(), c.drop_first());
        }
    }
}

/// A value that is ordered and found by a text.
pub trait Text: Key {
    /// The text of the value.
    spec fn text(&self) -> Seq<char>;

    /// The text of the value.
    fn as_text(&self) -> (s: &str)
        ensures
            s@ == self.text(),
    ;
}

impl Text for String {
    open spec fn text(&self) -> Seq<char> {
        self@
    }

    fn as_text(&self) -> (s: &str) {
        self.as_str()
    }
}

/// A strict order on values of `T` in which values may tie.
pub trait Order<T> {
    /// Whether `a` comes before `b`.
    spec fn lt(&self, a: T, b: T) -> bool;

    /// Whether `a` comes before `b`.
    fn before(&self, a: &T, b: &T) -> (r: bool)
        ensures
            r == self.lt(*a, *b),
    ;

    /// Of two values at most one comes before the other.
    proof fn lemma_asymmetric(&self, a: T, b: T)
        ensures
            !(self.lt(a, b) && self.lt(b, a)),
    ;

    /// Where `a` does not come before `b` and `b` not before `c`, `a`
    /// does not come before `c`.
    proof fn lemma_negative_transitive(&self, a: T, b: T, c: T)
        requires
            !self.lt(a, b),
            !self.lt(b, c),
        ensures
            !self.lt(a, c),
    ;
}

/// Every element is followed only by elements that do not come before it.
pub open spec fn sorted_by<T, O: Order<T>>(order: O, v: Seq<T>) -> bool {
    forall|i: int, j: int| 0 <= i < j < v.len() ==> !order.lt(#[trigger] v[j], #[trigger] v[i])
}

/// The order of values by their texts.
pub struct ByText;

impl<T: Text> Order<T> for ByText {
    open spec fn lt(&self, a: T, b: T) -> bool {
        text_lt(a.text(), b.text())
    }

    fn before(&self, a: &T, b: &T) -> (r: bool) {
        text_before(a.as_text(), b.as_text())
    }

    proof fn lemma_asymmetric(&self, a: T, b: T) {
        lemma_text_lt_total(a.text(), b.text());
    }

    proof fn lemma_negative_transitive(&self, a: T, b: T, c: T) {
        lemma_text_lt_negative(a.text(), b.text(), c.text());
    }
}

/// Where `a` does not come before `b` and `b` not before `c`, `a` does not
/// come before `c`.
pub proof fn lemma_text_lt_negative(a: Seq<char>, b: Seq<char>, c: Seq<char>)
    requires
        !text_lt(a, b),
        !text_lt(b, c),
    ensures
        !text_lt(a, c),
{
    lemma_text_lt_total(a, b);
    lemma_text_lt_total(b, c);
    lemma_text_lt_irreflexive(c);
    if text_lt(a, c) {
        if a == b {
        } else if b == c {
        } else {
            lemma_text_lt_transitive(c, b, a);
            lemma_text_lt_total(a, c);
        }
    }
}

/// Every element is followed only by elements whose text does not come
/// before its own.
pub open spec fn sorted_by_text<T: Text>(v: Seq<T>) -> bool {
    forall|i: int, j: int| 0 <= i < j < v.len() ==> !text_lt((#[trigger] v[j]).text(), (#[trigger] v[i]).text())
}

proof fn lemma_empty_multiset<T>(s: Seq<T>)
    requires
        s.len() == 0,
    ensures
        s.to_multiset() == Multiset::<T>::empty(),
{
    assert forall|a: T| s.to_multiset().count(a) == 0 by {
        vstd::seq_lib::to_multiset_contains(s, a);
    }
    assert(s.to_multiset() =~= Multiset::<T>::empty());
}

/// Sorts by an order, ascending: the same elements, none before one that
/// comes before it.
pub fn sort_by<T, O: Order<T>>(v: &mut Vec<T>, order: &O)
    ensures
        sorted_by(*order, final(v)@),
        final(v)@.to_multiset() == old(v)@.to_multiset(),
{
    let mut out: Vec<T> = Vec::new();
    proof {
        lemma_empty_multiset(out@);
        assert(out@.to_multiset().add(v@.to_multiset()) =~= v@.to_multiset());
    }
    while v.len() > 0
        invariant
            sorted_by(*order, out@),
            out@.to_multiset().add(v@.to_multiset()) == old(v)@.to_multiset(),
        decreases v.len(),
    {
        let ghost rest = v@;
        let x = v.remove(0);
        let mut p: usize = out.len();
        loop
            invariant
                p <= out.len(),
                forall|k: int| p <= k < out.len() ==> order.lt(x, #[trigger] out@[k]),
            ensures
                p <= out.len(),
                forall|k: int| p <= k < out.len() ==> order.lt(x, #[trigger] out@[k]),
                p == 0 || !order.lt(x, out@[p - 1]),
            decreases p,
        {
            if p == 0 {
                break ;
            }
            if !order.before(&x, &out[p - 1]) {
                break ;
            }
            p -= 1;
        }
        let ghost before = out@;
        out.insert(p, x);
        proof {
            let after = out@;
            assert forall|i: int, j: int| 0 <= i < j < after.len() implies !order.lt(
                #[trigger] after[j],
                #[trigger] after[i],
            ) by {
                if j == p {
                    // the new element against an earlier one
                    if i < p - 1 {
                        assert(!order.lt(before[p - 1], before[i]));
                        order.lemma_negative_transitive(x, before[p - 1], before[i]);
                    }
                } else if i == p {
                    order.lemma_asymmetric(x, before[j - 1]);
                } else {
                    let i0 = if i < p {
                        i
                    } else {
                        i - 1
                    };
                    let j0 = if j < p {
                        j
                    } else {
                        j - 1
                    };
                    assert(!order.lt(before[j0], before[i0]));
                }
            }
            assert(rest.remove(0) == v@);
            assert(rest[0] == x);
            assert(rest.contains(x));
            vstd::seq_lib::to_multiset_insert(before, p as int, x);
            vstd::seq_lib::to_multiset_remove(rest, 0);
            vstd::seq_lib::to_multiset_contains(rest, x);
            assert(after.to_multiset() =~= before.to_multiset().insert(x));
            assert(v@.to_multiset() =~= rest.to_multiset().remove(x));
            assert(rest.to_multiset().count(x) > 0);
            assert(after.to_multiset().add(v@.to_multiset()) =~= before.to_multiset().add(
                rest.to_multiset(),
            ));
        }
    }
    proof {
        lemma_empty_multiset(v@);
        assert(out@.to_multiset().add(v@.to_multiset()) =~= out@.to_multiset());
    }
    *v = out;
}

/// Sorts by text, ascending: the same elements, none before one whose
/// text comes before its own.
pub fn sort_by_text<T: Text>(v: &mut Vec<T>)
    ensures
        sorted_by_text(final(v)@),
        final(v)@.to_multiset() == old(v)@.to_multiset(),
{
    let order = ByText;
    sort_by(v, &order);
    assert forall|i: int, j: int| 0 <= i < j < v@.len() implies !text_lt(
        (#[trigger] v@[j]).text(),
        (#[trigger] v@[i]).text(),
    ) by {
        assert(!order.lt(v@[j], v@[i]));
    }
}

/// The texts of a list of strings.
pub open spec fn texts_of(lines: Seq<String>) -> Seq<Seq<char>> {
    lines.map_values(|s: String| s@)
}

/// Whether two texts are the same.
pub fn same_text(a: &str, b: &str) -> (r: bool)
    ensures
        r == (a@ == b@),
{
    let x = chars_of(a);
    let y = chars_of(b);
    if x.len() != y.len() {
        return false;
    }
    let mut i: usize = 0;
    while i < x.len()
        invariant
            i <= x.len(),
            x.len() == y.len(),
            x@ == a@,
            y@ == b@,
            forall|j: int| 0 <= j < i ==> x@[j] == y@[j],
        decreases x.len() - i,
    {
        if x[i] != y[i] {
            assert(a@[i as int] != b@[i as int]);
            return false;
        }
        i += 1;
    }
    assert(x@ =~= y@);
    true
}

/// A text in which every `from` is replaced by `to`.
pub open spec fn char_replaced(s: Seq<char>, from: char, to: char) -> Seq<char> {
    s.map_values(
        |c: char|
            if c == from {
                to
            } else {
                c
            },
    )
}

/// Replaces every character `from` in `s` by `to`.
pub fn replace_char(s: &str, from: char, to: char) -> (r: String)
    ensures
        r@ == char_replaced(s@, from, to),
{
    let chars = chars_of(s);
    let mut out: Vec<char> = Vec::new();
    let mut i: usize = 0;
    while i < chars.len()
        invariant
            i <= chars.len(),
            chars@ == s@,
            out@ == char_replaced(s@.take(i as int), from, to),
        decreases chars.len() - i,
    {
        let c = chars[i];
        out.push(if c == from {
            to
        } else {
            c
        });
        i += 1;
        assert(out@ =~= char_replaced(s@.take(i as int), from, to));
    }
    assert(s@.take(chars.len() as int) =~= s@);
    string_of(&out)
}

/// A rearrangement of distinct keys has distinct keys, and the same ones.
pub proof fn lemma_rearranged_keys<K: Key>(s: Seq<K>, t: Seq<K>)
    requires
        s.to_multiset() == t.to_multiset(),
        distinct_keys(s),
    ensures
        distinct_keys(t),
        key_set(t) == key_set(s),
        t.len() == s.len(),
{
    vstd::seq_lib::to_multiset_len(s);
    vstd::seq_lib::to_multiset_len(t);
    assert(s.no_duplicates()) by {
        assert forall|i: int, j: int| 0 <= i < s.len() && 0 <= j < s.len() && i != j implies s[i]
            != s[j] by {
            if i < j {
                assert(s[i]@ != s[j]@);
            } else {
                assert(s[j]@ != s[i]@);
            }
        }
    }
    s.lemma_multiset_has_no_duplicates();
    t.lemma_multiset_has_no_duplicates_conv();
    assert forall|j: int| 0 <= j < t.len() implies s.contains(#[trigger] t[j]) by {
        assert(t.contains(t[j]));
        vstd::seq_lib::to_multiset_contains(t, t[j]);
        vstd::seq_lib::to_multiset_contains(s, t[j]);
    }
    assert forall|i: int| 0 <= i < s.len() implies t.contains(#[trigger] s[i]) by {
        assert(s.contains(s[i]));
        vstd::seq_lib::to_multiset_contains(t, s[i]);
        vstd::seq_lib::to_multiset_contains(s, s[i]);
    }
    assert forall|a: int, b: int| 0 <= a < b < t.len() implies (#[trigger] t[a])@ != (#[trigger] t[b])@ by {
        assert(s.contains(t[a]));
        assert(s.contains(t[b]));
        let i = choose|i: int| 0 <= i < s.len() && s[i] == t[a];
        let j = choose|j: int| 0 <= j < s.len() && s[j] == t[b];
        assert(t[a] != t[b]);
        if i < j {
            assert(s[i]@ != s[j]@);
        } else {
            assert(s[j]@ != s[i]@);
        }
    }
    assert(key_set(t) =~= key_set(s)) by {
        assert forall|k: K::V| key_set(t).contains(k) <==> key_set(s).contains(k) by {
            if has_key(t, k) {
                let j = position_of(t, k);
                assert(s.contains(t[j]));
                let i = choose|i: int| 0 <= i < s.len() && s[i] == t[j];
                assert(s[i]@ == k);
            }
            if has_key(s, k) {
                let i = position_of(s, k);
                assert(t.contains(s[i]));
                let j = choose|j: int| 0 <= j < t.len() && t[j] == s[i];
                assert(t[j]@ == k);
            }
        }
    }
}

/// The first `k` of the given distinct items in the order of their texts:
/// the result is sorted, and no item that is left out has a text that
/// comes before the text of an item that is kept.
pub fn lowest_by_text<T: Text>(items: Vec<T>, k: usize) -> (out: Vec<T>)
    requires
        distinct_keys(items@),
    ensures
        distinct_keys(out@),
        sorted_by_text(out@),
        key_set(out@).subset_of(key_set(items@)),
        out.len() == if items.len() <= k {
            items.len()
        } else {
            k
        },
        forall|i: int, j: int|
            0 <= i < items.len() && 0 <= j < out.len() && !has_key(out@, (#[trigger] items[i])@)
                ==> !text_lt(items[i].text(), (#[trigger] out[j]).text()),
        out.len() == items.len() ==> key_set(out@) == key_set(items@),
{
    let mut out = items;
    sort_by_text(&mut out);
    let ghost sorted = out@;
    proof {
        lemma_rearranged_keys(items@, sorted);
    }
    if out.len() > k {
        out.truncate(k);
    }
    proof {
        assert(out@ =~= sorted.take(out.len() as int));
        assert forall|q: T::V| key_set(out@).contains(q) implies key_set(items@).contains(q) by {
            let p = position_of(out@, q);
            assert(sorted[p]@ == q);
            assert(has_key(sorted, q));
        }
        assert forall|i: int, j: int|
            0 <= i < items.len() && 0 <= j < out.len() && !has_key(out@, (#[trigger] items[i])@) implies !text_lt(
            items[i].text(),
            (#[trigger] out[j]).text(),
        ) by {
            assert(items@.contains(items[i]));
            vstd::seq_lib::to_multiset_contains(items@, items[i]);
            vstd::seq_lib::to_multiset_contains(sorted, items[i]);
            let p = choose|p: int| 0 <= p < sorted.len() && sorted[p] == items[i];
            if p < out.len() {
                assert(out@[p]@ == items[i]@);
            }
            // an item that was cut off stood behind every item that was kept
            assert(!text_lt(sorted[p].text(), sorted[j].text()));
        }
        if out.len() == items.len() {
            assert(out@ =~= sorted);
        }
    }
    out
}

/// The given texts in a row, with `sep` between each two.
pub fn join_texts(parts: &Vec<String>, sep: &str) -> (r: String)
    ensures
        r@ == joined(texts_of(parts@), sep@),
{
    let mut out: Vec<char> = Vec::new();
    let ghost all = texts_of(parts@);
    let mut j: usize = 0;
    proof {
        assert(all.take(0) =~= Seq::<Seq<char>>::empty());
    }
    while j < parts.len()
        invariant
            j <= parts.len(),
            all == texts_of(parts@),
            out@ == joined(all.take(j as int), sep@),
        decreases parts.len() - j,
    {
        let ghost before = out@;
        if j > 0 {
            push_str(&mut out, sep);
        }
        push_str(&mut out, parts[j].as_str());
        proof {
            assert(all.take(j + 1).drop_last() =~= all.take(j as int));
            assert(all.take(j + 1).last() == parts@[j as int]@);
            if j == 0 {
                assert(all.take(1)[0] == parts@[0]@);
                assert(before =~= Seq::<char>::empty());
                assert(out@ =~= parts@[0]@);
            }
        }
        j += 1;
    }
    proof {
        assert(all.take(parts.len() as int) =~= all);
    }
    string_of(&out)
}

/// Whether `out` lists the texts of `of` in ascending order, each once.
pub open spec fn sorted_set_of(out: Seq<Seq<char>>, of: Seq<Seq<char>>) -> bool {
    &&& forall|i: int, j: int| 0 <= i < j < out.len() ==> text_lt(#[trigger] out[i], #[trigger] out[j])
    &&& forall|s: Seq<char>| out.contains(s) <==> of.contains(s)
}

/// The given texts in ascending order, each once.
pub fn sorted_unique(items: &Vec<String>) -> (out: Vec<String>)
    ensures
        sorted_set_of(texts_of(out@), texts_of(items@)),
{
    let mut sorted = items.clone();
    proof {
        assert(sorted@.len() == items@.len());
        assert forall|i: int| 0 <= i < items@.len() implies sorted@[i]@ == items@[i]@ by {
            assert(vstd::pervasive::cloned(items@[i], sorted@[i]));
        }
        assert(texts_of(sorted@) =~= texts_of(items@));
    }
    let ghost copied = sorted@;
    sort_by_text(&mut sorted);
    proof {
        assert forall|s: Seq<char>| texts_of(sorted@).contains(s) <==> texts_of(copied).contains(s) by {
            if texts_of(sorted@).contains(s) {
                let i = choose|i: int| 0 <= i < sorted@.len() && texts_of(sorted@)[i] == s;
                assert(sorted@.contains(sorted@[i]));
                vstd::seq_lib::to_multiset_contains(sorted@, sorted@[i]);
                vstd::seq_lib::to_multiset_contains(copied, sorted@[i]);
                let k = choose|k: int| 0 <= k < copied.len() && copied[k] == sorted@[i];
                assert(texts_of(copied)[k] == s);
            }
            if texts_of(copied).contains(s) {
                let i = choose|i: int| 0 <= i < copied.len() && texts_of(copied)[i] == s;
                assert(copied.contains(copied[i]));
                vstd::seq_lib::to_multiset_contains(sorted@, copied[i]);
                vstd::seq_lib::to_multiset_contains(copied, copied[i]);
                let k = choose|k: int| 0 <= k < sorted@.len() && sorted@[k] == copied[i];
                assert(texts_of(sorted@)[k] == s);
            }
        }
    }
    let mut out: Vec<String> = Vec::new();
    let mut i: usize = 0;
    while i < sorted.len()
        invariant
            i <= sorted.len(),
            sorted_by_text(sorted@),
            forall|a: int, b: int|
                0 <= a < b < out.len() ==> text_lt((#[trigger] out@[a])@, (#[trigger] out@[b])@),
            i > 0 ==> out.len() > 0 && out@[out.len() - 1]@ == sorted@[i - 1]@,
            i == 0 ==> out.len() == 0,
            forall|s: Seq<char>|
                texts_of(out@).contains(s) <==> texts_of(sorted@.take(i as int)).contains(s),
        decreases sorted.len() - i,
    {
        let ghost before = out@;
        let ghost prev = sorted@.take(i as int);
        let ghost next = sorted@.take(i + 1);
        let fresh = if out.len() == 0 {
            true
        } else {
            !same_text(out[out.len() - 1].as_str(), sorted[i].as_str())
        };
        if fresh {
            out.push(sorted[i].clone());
        }
        proof {
            let x = sorted@[i as int]@;
            assert(next =~= prev.push(sorted@[i as int]));
            assert(texts_of(next) =~= texts_of(prev).push(x));
            assert forall|s: Seq<char>| texts_of(next).contains(s) <==> texts_of(prev).contains(s) || s
                == x by {
                if texts_of(prev).contains(s) {
                    let k = choose|k: int| 0 <= k < texts_of(prev).len() && texts_of(prev)[k] == s;
                    assert(texts_of(next)[k] == s);
                }
                if s == x {
                    assert(texts_of(next)[i as int] == s);
                }
                if texts_of(next).contains(s) {
                    let k = choose|k: int| 0 <= k < texts_of(next).len() && texts_of(next)[k] == s;
                    if k < i {
                        assert(texts_of(prev)[k] == s);
                    }
                }
            }
            if fresh {
                assert(texts_of(out@) =~= texts_of(before).push(x));
                assert forall|a: int, b: int| 0 <= a < b < out.len() implies text_lt(
                    (#[trigger] out@[a])@,
                    (#[trigger] out@[b])@,
                ) by {
                    if b == before.len() {
                        // the last kept text comes before the new one, and so does every earlier
                        let last = before[before.len() - 1]@;
                        assert(last == sorted@[i - 1]@);
                        assert(!text_lt(sorted@[i as int].text(), sorted@[i - 1].text()));
                        lemma_text_lt_total(last, x);
                        if a < before.len() - 1 {
                            assert(text_lt(before[a]@, before[before.len() - 1]@));
                            lemma_text_lt_transitive(before[a]@, last, x);
                        }
                    } else {
                        assert(text_lt(before[a]@, before[b]@));
                    }
                }
                assert forall|s: Seq<char>| texts_of(out@).contains(s) <==> texts_of(before).contains(s)
                    || s == x by {
                    if texts_of(before).contains(s) {
                        let k = choose|k: int|
                            0 <= k < texts_of(before).len() && texts_of(before)[k] == s;
                        assert(texts_of(out@)[k] == s);
                    }
                    if s == x {
                        assert(texts_of(out@)[before.len() as int] == s);
                    }
                    if texts_of(out@).contains(s) {
                        let k = choose|k: int| 0 <= k < texts_of(out@).len() && texts_of(out@)[k] == s;
                        if k < before.len() {
                            assert(texts_of(before)[k] == s);
                        }
                    }
                }
            } else {
                assert(texts_of(before)[before.len() - 1] == x);
                assert(texts_of(before).contains(x));
            }
            assert forall|s: Seq<char>| texts_of(out@).contains(s) <==> texts_of(next).contains(s) by {
                assert(texts_of(before).contains(s) <==> texts_of(prev).contains(s));
                assert(texts_of(next).contains(s) <==> texts_of(prev).contains(s) || s == x);
                if fresh {
                    assert(texts_of(out@).contains(s) <==> texts_of(before).contains(s) || s == x);
                }
            }
        }
        i += 1;
    }
    proof {
        assert(sorted@.take(sorted.len() as int) =~= sorted@);
        assert forall|a: int, b: int| 0 <= a < b < texts_of(out@).len() implies text_lt(
            #[trigger] texts_of(out@)[a],
            #[trigger] texts_of(out@)[b],
        ) by {
            assert(text_lt(out@[a]@, out@[b]@));
        }
    }
    out
}

/// The texts of a list of character vectors.
pub open spec fn parts_of(parts: Seq<Vec<char>>) -> Seq<Seq<char>> {
    parts.map_values(|v: Vec<char>| v@)
}

/// The parts of a text between the occurrences of a character.
pub fn split_chars(chars: &Vec<char>, sep: char) -> (parts: Vec<Vec<char>>)
    ensures
        parts_of(parts@) == split_at(chars@, sep),
        parts.len() > 0,
{
    let mut done: Vec<Vec<char>> = Vec::new();
    let mut cur: Vec<char> = Vec::new();
    let mut i: usize = 0;
    proof {
        assert(chars@.take(0) =~= Seq::<char>::empty());
        assert(parts_of(done@).push(cur@) =~= seq![Seq::<char>::empty()]);
    }
    while i < chars.len()
        invariant
            i <= chars.len(),
            split_at(chars@.take(i as int), sep) == parts_of(done@).push(cur@),
        decreases chars.len() - i,
    {
        let c = chars[i];
        let ghost prev = split_at(chars@.take(i as int), sep);
        proof {
            assert(chars@.take(i + 1).drop_last() =~= chars@.take(i as int));
            assert(chars@.take(i + 1).last() == c);
        }
        if c == sep {
            let ghost before = parts_of(done@);
            done.push(cur);
            cur = Vec::new();
            proof {
                assert(parts_of(done@) =~= prev);
            }
        } else {
            let ghost before = cur@;
            cur.push(c);
            proof {
                assert(prev.drop_last() =~= parts_of(done@));
                assert(prev.last().push(c) == cur@);
            }
        }
        i += 1;
    }
    proof {
        assert(chars@.take(chars.len() as int) =~= chars@);
    }
    let ghost before = parts_of(done@);
    done.push(cur);
    proof {
        assert(parts_of(done@) =~= before.push(done@[done.len() - 1]@));
    }
    done
}

} // verus!
