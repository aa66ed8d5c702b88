//! Character-level helpers shared by the rest of the crate.
//!
//! Text is modelled as `Seq<char>`: a `String` enters through [`chars_of`],
//! is worked on as a `Vec<char>`, and leaves through [`string_of`].

use vstd::prelude::*;

verus! {

/// `String::push` appends one character to the end of the string.
pub assume_specification[ String::push ](s: &mut String, c: char)
    ensures
        final(s)@ == old(s)@.push(c),
;

/// `String::from_utf8` turns bytes into a string when they are valid UTF-8,
/// and fails otherwise; the string then has exactly these bytes.
#[verifier::external_body]
pub(crate) fn string_from_utf8(bytes: Vec<u8>) -> (r: Option<String>)
    ensures
        r is Some <==> vstd::utf8::valid_utf8(bytes@),
        r is Some ==> r->Some_0@ == vstd::utf8::decode_utf8(bytes@),
{
    match String::from_utf8(bytes) {
        Ok(s) => Some(s),
        Err(_) => None,
    }
}

/// The characters of `s`, in order.
pub fn chars_of(s: &str) -> (v: Vec<char>)
    ensures
        v@ == s@,
{
    let mut v: Vec<char> = Vec::new();
    let it0 = s.chars();
    for c in it: it0
        invariant
            v@ == it.seq().take(it.index() as int),
            it.seq() == s@,
    {
        v.push(c);
    }
    v
}

/// The string made of the characters of `v`, in order.
pub fn string_of(v: &Vec<char>) -> (s: String)
    ensures
        s@ == v@,
{
    let mut s = String::new();
    let mut i: usize = 0;
    while i < v.len()
        invariant
            i <= v.len(),
            s@ == v@.take(i as int),
        decreases v.len() - i,
    {
        s.push(v[i]);
        i += 1;
        assert(v@.take(i as int) == v@.take(i as int - 1).push(v@[i as int - 1]));
    }
    assert(v@.take(v.len() as int) == v@);
    s
}

/// The decimal digit character for `d`.
pub open spec fn digit(d: nat) -> char {
    if d == 0 {
        '0'
    } else if d == 1 {
        '1'
    } else if d == 2 {
        '2'
    } else if d == 3 {
        '3'
    } else if d == 4 {
        '4'
    } else if d == 5 {
        '5'
    } else if d == 6 {
        '6'
    } else if d == 7 {
        '7'
    } else if d == 8 {
        '8'
    } else {
        '9'
    }
}

/// `n` written in base ten, without sign or leading zeros.
pub open spec fn decimal(n: nat) -> Seq<char>
    decreases n,
{
    if n < 10 {
        seq![digit(n)]
    } else {
        decimal(n / 10).push(digit(n % 10))
    }
}

/// The digit character for a value below ten; `9` for any other value.
pub fn digit_char(d: usize) -> (c: char)
    ensures
        c == digit(d as nat),
{
    if d == 0 {
        '0'
    } else if d == 1 {
        '1'
    } else if d == 2 {
        '2'
    } else if d == 3 {
        '3'
    } else if d == 4 {
        '4'
    } else if d == 5 {
        '5'
    } else if d == 6 {
        '6'
    } else if d == 7 {
        '7'
    } else if d == 8 {
        '8'
    } else {
        '9'
    }
}

/// Appends `n` in base ten to `out`.
pub fn push_decimal(out: &mut Vec<char>, n: usize)
    ensures
        final(out)@ == old(out)@ + decimal(n as nat),
    decreases n,
{
    if n < 10 {
        out.push(digit_char(n));
        assert(out@ =~= old(out)@ + decimal(n as nat));
    } else {
        push_decimal(out, n / 10);
        out.push(digit_char(n % 10));
        assert(out@ =~= old(out)@ + decimal(n as nat));
    }
}

/// Appends `n` in base ten to `out`.
pub fn push_decimal_wide(out: &mut Vec<char>, n: u64)
    ensures
        final(out)@ == old(out)@ + decimal(n as nat),
    decreases n,
{
    if n < 10 {
        out.push(digit_char(n as usize));
        assert(out@ =~= old(out)@ + decimal(n as nat));
    } else {
        push_decimal_wide(out, n / 10);
        out.push(digit_char((n % 10) as usize));
        assert(out@ =~= old(out)@ + decimal(n as nat));
    }
}

/// The value of a decimal digit character.
pub open spec fn digit_of(c: char) -> Option<nat> {
    if c == '0' {
        Some(0nat)
    } else if c == '1' {
        Some(1nat)
    } else if c == '2' {
        Some(2nat)
    } else if c == '3' {
        Some(3nat)
    } else if c == '4' {
        Some(4nat)
    } else if c == '5' {
        Some(5nat)
    } else if c == '6' {
        Some(6nat)
    } else if c == '7' {
        Some(7nat)
    } else if c == '8' {
        Some(8nat)
    } else if c == '9' {
        Some(9nat)
    } else {
        None
    }
}

/// The number that a text of decimal digits writes; nothing for an empty
/// text and for one that holds anything but digits.
pub open spec fn natural(s: Seq<char>) -> Option<nat>
    decreases s.len(),
{
    if s.len() == 0 {
        None
    } else {
        match digit_of(s.last()) {
            None => None,
            Some(d) => if s.len() == 1 {
                Some(d)
            } else {
                match natural(s.drop_last()) {
                    Some(n) => Some(n * 10 + d),
                    None => None,
                }
            },
        }
    }
}

/// A number written in base ten is read back as that number.
pub proof fn law_natural_of_decimal(n: nat)
    ensures
        decimal(n).len() >= 1,
        natural(decimal(n)) == Some(n),
    decreases n,
{
    if n >= 10 {
        law_natural_of_decimal(n / 10);
        let s = decimal(n);
        assert(s.drop_last() =~= decimal(n / 10));
        assert(s.last() == digit(n % 10));
        assert(digit_of(digit(n % 10)) == Some(n % 10));
    } else {
        assert(digit_of(digit(n)) == Some(n));
    }
}

/// Every beginning of a text that writes a number writes a number, and no
/// greater one.
pub proof fn lemma_natural_prefix(s: Seq<char>, j: int)
    requires
        1 <= j <= s.len(),
        natural(s) is Some,
    ensures
        natural(s.take(j)) is Some,
        natural(s.take(j))->Some_0 <= natural(s)->Some_0,
    decreases s.len(),
{
    if j == s.len() {
        assert(s.take(j) =~= s);
    } else {
        assert(s.drop_last().take(j) =~= s.take(j));
        lemma_natural_prefix(s.drop_last(), j);
    }
}

/// The value of a decimal digit character.
pub fn digit_value(c: char) -> (r: Option<u64>)
    ensures
        match r {
            Some(d) => digit_of(c) == Some(d as nat),
            None => digit_of(c) is None,
        },
{
    if c == '0' {
        Some(0)
    } else if c == '1' {
        Some(1)
    } else if c == '2' {
        Some(2)
    } else if c == '3' {
        Some(3)
    } else if c == '4' {
        Some(4)
    } else if c == '5' {
        Some(5)
    } else if c == '6' {
        Some(6)
    } else if c == '7' {
        Some(7)
    } else if c == '8' {
        Some(8)
    } else if c == '9' {
        Some(9)
    } else {
        None
    }
}

/// The number that a text of decimal digits writes, where it is no
/// greater than `max`.
pub open spec fn natural_within(s: Seq<char>, max: nat) -> Option<nat> {
    match natural(s) {
        Some(n) => if n <= max {
            Some(n)
        } else {
            None
        },
        None => None,
    }
}

/// Reads a text of decimal digits. A text that is empty, holds anything
/// but digits, or writes a number greater than `max` gives nothing.
pub fn parse_natural(v: &Vec<char>, max: u64) -> (r: Option<u64>)
    ensures
        match r {
            Some(n) => natural_within(v@, max as nat) == Some(n as nat),
            None => natural_within(v@, max as nat) is None,
        },
{
    if v.len() == 0 {
        return None;
    }
    let mut acc: u64 = 0;
    let mut i: usize = 0;
    while i < v.len()
        invariant
            i <= v.len(),
            v.len() > 0,
            i > 0 ==> natural(v@.take(i as int)) == Some(acc as nat),
            i == 0 ==> acc == 0,
            acc <= max,
        decreases v.len() - i,
    {
        proof {
            assert(v@.take(i as int + 1).drop_last() =~= v@.take(i as int));
            assert(v@.take(i as int + 1).last() == v@[i as int]);
        }
        match digit_value(v[i]) {
            None => {
                proof {
                    if natural(v@) is Some {
                        lemma_natural_prefix(v@, i as int + 1);
                    }
                }
                return None;
            },
            Some(d) => {
                if d > max || acc > (max - d) / 10 {
                    proof {
                        if natural(v@) is Some {
                            lemma_natural_prefix(v@, i as int + 1);
                        }
                    }
                    return None;
                }
                acc = acc * 10 + d;
            },
        }
        i += 1;
    }
    assert(v@.take(i as int) =~= v@);
    Some(acc)
}

/// Appends the characters of `s` to `out`.
pub fn push_str(out: &mut Vec<char>, s: &str)
    ensures
        final(out)@ == old(out)@ + s@,
{
    let mut v = chars_of(s);
    out.append(&mut v);
}

/// Appends a copy of `v` to `out`.
pub fn push_all(out: &mut Vec<char>, v: &Vec<char>)
    ensures
        final(out)@ == old(out)@ + v@,
{
    let mut i: usize = 0;
    while i < v.len()
        invariant
            i <= v.len(),
            out@ == old(out)@ + v@.take(i as int),
        decreases v.len() - i,
    {
        out.push(v[i]);
        i += 1;
        assert(out@ =~= old(out)@ + v@.take(i as int));
    }
    assert(v@.take(v.len() as int) =~= v@);
}

/// Whether `char::is_whitespace` holds of `c`.
pub uninterp spec fn is_space(c: char) -> bool;

/// `char::is_whitespace` tells whether a character has the Unicode
/// property White_Space; its answer depends on the character alone.
pub assume_specification[ char::is_whitespace ](c: char) -> (b: bool)
    ensures
        b == is_space(c),
;

/// Whether `char::is_alphanumeric` holds of `c`.
pub uninterp spec fn is_alnum(c: char) -> bool;

/// `char::is_alphanumeric` tells whether a character is a letter or a
/// number by its Unicode properties; its answer depends on the character
/// alone.
pub assume_specification[ char::is_alphanumeric ](c: char) -> (b: bool)
    ensures
        b == is_alnum(c),
;

/// What `str::to_lowercase` makes of a text.
pub uninterp spec fn lowercase(s: Seq<char>) -> Seq<char>;

/// `str::to_lowercase` returns the lowercase equivalent of a string as a new
/// string; the result depends on the characters alone.
#[verifier::external_body]
pub(crate) fn to_lower(s: &str) -> (r: String)
    ensures
        r@ == lowercase(s@),
{
    s.to_lowercase()
}

/// The views of a list of character vectors.
pub open spec fn views(x: Seq<Vec<char>>) -> Seq<Seq<char>> {
    x.map_values(|v: Vec<char>| v@)
}

/// The views of a list of strings.
pub open spec fn str_views(x: Seq<String>) -> Seq<Seq<char>> {
    x.map_values(|v: String| v@)
}

/// The pieces of `s` between occurrences of `sep`. There is always at least
/// one piece; an empty text has one empty piece.
pub open spec fn split_on(s: Seq<char>, sep: char) -> Seq<Seq<char>>
    decreases s.len(),
{
    if s.len() == 0 {
        seq![Seq::empty()]
    } else {
        let p = split_on(s.drop_last(), sep);
        if s.last() == sep {
            p.push(Seq::empty())
        } else {
            p.drop_last().push(p.last().push(s.last()))
        }
    }
}

/// A split has at least one piece.
pub proof fn lemma_split_nonempty(s: Seq<char>, sep: char)
    ensures
        split_on(s, sep).len() >= 1,
    decreases s.len(),
{
    if s.len() > 0 {
        lemma_split_nonempty(s.drop_last(), sep);
    }
}

/// Splits `v` at every `sep`.
pub fn split_chars(v: &Vec<char>, sep: char) -> (out: Vec<Vec<char>>)
    ensures
        views(out@) == split_on(v@, sep),
        out@.len() >= 1,
{
    let mut done: Vec<Vec<char>> = Vec::new();
    let mut cur: Vec<char> = Vec::new();
    let mut i: usize = 0;
    assert(v@.take(0) =~= Seq::<char>::empty());
    assert(views(done@).push(cur@) =~= split_on(v@.take(0), sep));
    while i < v.len()
        invariant
            i <= v.len(),
            views(done@).push(cur@) == split_on(v@.take(i as int), sep),
        decreases v.len() - i,
    {
        let ghost t = v@.take(i as int + 1);
        let ghost p = split_on(v@.take(i as int), sep);
        let ghost done0 = done@;
        let ghost cur0 = cur@;
        proof {
            assert(t.drop_last() =~= v@.take(i as int));
            assert(t.last() == v@[i as int]);
            assert(p.last() == cur0);
            assert(p.drop_last() =~= views(done0));
        }
        let c = v[i];
        if c == sep {
            done.push(cur);
            cur = Vec::new();
            assert(views(done@) =~= views(done0).push(cur0));
            assert(views(done@).push(cur@) =~= p.push(Seq::empty()));
        } else {
            cur.push(c);
            assert(views(done@).push(cur@) =~= p.drop_last().push(p.last().push(c)));
        }
        i += 1;
    }
    assert(v@.take(v.len() as int) =~= v@);
    let ghost done0 = done@;
    done.push(cur);
    assert(views(done@) =~= views(done0).push(cur@));
    done
}

/// `s` without one trailing carriage return.
pub open spec fn strip_cr(s: Seq<char>) -> Seq<char> {
    if s.len() > 0 && s.last() == '\r' {
        s.drop_last()
    } else {
        s
    }
}

/// The lines of a text. Lines end at a line feed, or at a carriage return
/// followed by a line feed; the terminators are not part of the lines. The
/// last line needs no terminator, and a text that ends with one has no
/// further empty line.
pub open spec fn lines_of(s: Seq<char>) -> Seq<Seq<char>> {
    let p = split_on(s, '\n');
    let body = p.drop_last().map_values(|l: Seq<char>| strip_cr(l));
    if p.last().len() == 0 {
        body
    } else {
        body.push(p.last())
    }
}

/// The lines of `v`.
pub fn split_lines(v: &Vec<char>) -> (out: Vec<Vec<char>>)
    ensures
        views(out@) == lines_of(v@),
{
    let mut pieces = split_chars(v, '\n');
    let ghost p = split_on(v@, '\n');
    let n = pieces.len();
    let mut out: Vec<Vec<char>> = Vec::new();
    let mut i: usize = 0;
    while i + 1 < n
        invariant
            n == pieces@.len(),
            n >= 1,
            i + 1 <= n,
            forall|k: int| i <= k < n ==> (#[trigger] pieces@[k])@ == p[k],
            p.len() == n,
            out@.len() == i,
            forall|k: int| 0 <= k < i ==> (#[trigger] out@[k])@ == strip_cr(p[k]),
        decreases n - i,
    {
        let mut line: Vec<char> = Vec::new();
        pieces.set_and_swap(i, &mut line);
        if line.len() > 0 && line[line.len() - 1] == '\r' {
            line.pop();
        }
        out.push(line);
        i += 1;
    }
    let mut last: Vec<char> = Vec::new();
    pieces.set_and_swap(n - 1, &mut last);
    let ghost body = p.drop_last().map_values(|l: Seq<char>| strip_cr(l));
    assert(views(out@) =~= body);
    if last.len() > 0 {
        let ghost out0 = out@;
        out.push(last);
        assert(views(out@) =~= views(out0).push(last@));
    }
    out
}

/// `parts` with `sep` between each two neighbours.
pub open spec fn join(parts: Seq<Seq<char>>, sep: Seq<char>) -> Seq<char>
    decreases parts.len(),
{
    if parts.len() == 0 {
        Seq::empty()
    } else if parts.len() == 1 {
        parts[0]
    } else {
        join(parts.drop_last(), sep) + sep + parts.last()
    }
}

/// Joins `parts` with `sep`.
pub fn join_chars(parts: &Vec<Vec<char>>, sep: &Vec<char>) -> (out: Vec<char>)
    ensures
        out@ == join(views(parts@), sep@),
{
    let mut out: Vec<char> = Vec::new();
    let mut i: usize = 0;
    assert(views(parts@).take(0) =~= Seq::<Seq<char>>::empty());
    while i < parts.len()
        invariant
            i <= parts.len(),
            out@ == join(views(parts@).take(i as int), sep@),
        decreases parts.len() - i,
    {
        let ghost t = views(parts@).take(i as int + 1);
        proof {
            assert(t.drop_last() =~= views(parts@).take(i as int));
            assert(t.last() == parts@[i as int]@);
        }
        if i > 0 {
            push_all(&mut out, sep);
        }
        push_all(&mut out, &parts[i]);
        proof {
            if i == 0 {
                assert(t[0] == parts@[0]@);
                assert(out@ =~= t[0]);
            }
        }
        i += 1;
    }
    assert(views(parts@).take(parts.len() as int) =~= views(parts@));
    out
}

/// `s` without its leading whitespace.
pub open spec fn trim_start(s: Seq<char>) -> Seq<char>
    decreases s.len(),
{
    if s.len() > 0 && is_space(s[0]) {
        trim_start(s.drop_first())
    } else {
        s
    }
}

/// `s` without its trailing whitespace.
pub open spec fn trim_end(s: Seq<char>) -> Seq<char>
    decreases s.len(),
{
    if s.len() > 0 && is_space(s.last()) {
        trim_end(s.drop_last())
    } else {
        s
    }
}

/// `s` without leading and trailing whitespace.
pub open spec fn trim(s: Seq<char>) -> Seq<char> {
    trim_end(trim_start(s))
}

/// Number of leading whitespace characters of `s`.
pub open spec fn leading_spaces(s: Seq<char>) -> nat
    decreases s.len(),
{
    if s.len() > 0 && is_space(s[0]) {
        1 + leading_spaces(s.drop_first())
    } else {
        0
    }
}

/// Trimming at the start removes exactly the leading whitespace.
pub proof fn lemma_trim_start_skip(s: Seq<char>)
    ensures
        leading_spaces(s) <= s.len(),
        trim_start(s) == s.skip(leading_spaces(s) as int),
    decreases s.len(),
{
    if s.len() > 0 && is_space(s[0]) {
        lemma_trim_start_skip(s.drop_first());
        assert(s.drop_first().skip(leading_spaces(s.drop_first()) as int) =~= s.skip(
            leading_spaces(s) as int,
        ));
    } else {
        assert(s.skip(0) =~= s);
    }
}

/// Whitespace counted from the front of `s` up to `n` characters is all of
/// the leading whitespace when character `n` is no whitespace.
pub proof fn lemma_leading_spaces(s: Seq<char>, n: int)
    requires
        0 <= n <= s.len(),
        forall|k: int| 0 <= k < n ==> is_space(#[trigger] s[k]),
        n == s.len() || !is_space(s[n]),
    ensures
        leading_spaces(s) == n,
    decreases n,
{
    if n > 0 {
        let t = s.drop_first();
        assert forall|k: int| 0 <= k < n - 1 implies is_space(#[trigger] t[k]) by {
            assert(t[k] == s[k + 1]);
        }
        lemma_leading_spaces(t, n - 1);
    }
}

/// Removes leading whitespace.
pub fn trim_start_chars(v: &Vec<char>) -> (out: Vec<char>)
    ensures
        out@ == trim_start(v@),
{
    let mut n: usize = 0;
    while n < v.len() && v[n].is_whitespace()
        invariant
            n <= v.len(),
            forall|k: int| 0 <= k < n ==> is_space(#[trigger] v@[k]),
        decreases v.len() - n,
    {
        n += 1;
    }
    proof {
        lemma_leading_spaces(v@, n as int);
        lemma_trim_start_skip(v@);
    }
    let mut out: Vec<char> = Vec::new();
    let mut i: usize = n;
    while i < v.len()
        invariant
            n <= i <= v.len(),
            out@ == v@.subrange(n as int, i as int),
        decreases v.len() - i,
    {
        out.push(v[i]);
        i += 1;
        assert(out@ =~= v@.subrange(n as int, i as int));
    }
    assert(out@ =~= v@.skip(n as int));
    out
}

/// Removes trailing whitespace.
pub fn trim_end_chars(v: &Vec<char>) -> (out: Vec<char>)
    ensures
        out@ == trim_end(v@),
{
    let mut n: usize = v.len();
    assert(v@.take(n as int) =~= v@);
    while n > 0 && v[n - 1].is_whitespace()
        invariant
            n <= v.len(),
            trim_end(v@) == trim_end(v@.take(n as int)),
        decreases n,
    {
        proof {
            assert(v@.take(n as int).drop_last() =~= v@.take(n as int - 1));
        }
        n -= 1;
    }
    let mut out: Vec<char> = Vec::new();
    let mut i: usize = 0;
    while i < n
        invariant
            i <= n <= v.len(),
            out@ == v@.take(i as int),
        decreases n - i,
    {
        out.push(v[i]);
        i += 1;
        assert(out@ =~= v@.take(i as int));
    }
    out
}

/// Removes leading and trailing whitespace.
pub fn trim_chars(v: &Vec<char>) -> (out: Vec<char>)
    ensures
        out@ == trim(v@),
{
    let a = trim_start_chars(v);
    trim_end_chars(&a)
}

/// `s` begins with `p`.
pub open spec fn starts_with(s: Seq<char>, p: Seq<char>) -> bool {
    p.len() <= s.len() && s.take(p.len() as int) == p
}

/// `p` occurs in `s` at position `i`.
pub open spec fn occurs_at(s: Seq<char>, p: Seq<char>, i: int) -> bool {
    0 <= i && i + p.len() <= s.len() && s.subrange(i, i + p.len()) == p
}

/// Whether `p` occurs in `v` at position `i`.
pub fn matches_at(v: &Vec<char>, p: &Vec<char>, i: usize) -> (b: bool)
    ensures
        b == occurs_at(v@, p@, i as int),
{
    if i > v.len() || p.len() > v.len() - i {
        return false;
    }
    let mut k: usize = 0;
    while k < p.len()
        invariant
            k <= p.len(),
            i + p.len() <= v.len(),
            forall|j: int| 0 <= j < k ==> v@[i + j] == p@[j],
        decreases p.len() - k,
    {
        if v[i + k] != p[k] {
            assert(v@.subrange(i as int, i + p.len())[k as int] == v@[i + k]);
            return false;
        }
        k += 1;
    }
    assert(v@.subrange(i as int, i + p.len()) =~= p@);
    true
}

/// Whether `v` begins with `p`.
pub fn begins_with(v: &Vec<char>, p: &Vec<char>) -> (b: bool)
    ensures
        b == starts_with(v@, p@),
{
    let b = matches_at(v, p, 0);
    proof {
        if p@.len() <= v@.len() {
            assert(v@.subrange(0, 0 + p@.len() as int) =~= v@.take(p@.len() as int));
        }
    }
    b
}

/// `s` ends with `p`.
pub open spec fn ends_with(s: Seq<char>, p: Seq<char>) -> bool {
    p.len() <= s.len() && s.skip(s.len() - p.len()) == p
}

/// Whether `v` ends with `p`.
pub fn finishes_with(v: &Vec<char>, p: &Vec<char>) -> (b: bool)
    ensures
        b == ends_with(v@, p@),
{
    if p.len() > v.len() {
        return false;
    }
    let at = v.len() - p.len();
    let b = matches_at(v, p, at);
    proof {
        assert(v@.subrange(at as int, at + p@.len() as int) =~= v@.skip(at as int));
    }
    b
}

/// Position `i` is where `p` first occurs in `s`.
pub open spec fn first_at(s: Seq<char>, p: Seq<char>, i: int) -> bool {
    occurs_at(s, p, i) && forall|j: int| 0 <= j < i ==> !occurs_at(s, p, j)
}

/// `p` occurs somewhere in `s`.
pub open spec fn contains(s: Seq<char>, p: Seq<char>) -> bool {
    exists|i: int| occurs_at(s, p, i)
}

/// The first position at which `p` occurs in `v`, if it occurs.
pub fn find_chars(v: &Vec<char>, p: &Vec<char>) -> (r: Option<usize>)
    ensures
        match r {
            Some(i) => first_at(v@, p@, i as int),
            None => !contains(v@, p@),
        },
{
    let mut i: usize = 0;
    while i < v.len()
        invariant
            i <= v.len(),
            forall|j: int| 0 <= j < i ==> !occurs_at(v@, p@, j),
        decreases v.len() - i,
    {
        if matches_at(v, p, i) {
            return Some(i);
        }
        i += 1;
    }
    if matches_at(v, p, i) {
        return Some(i);
    }
    None
}

/// The first `n` characters of `v`; all of `v` where it has fewer.
pub fn prefix(v: &Vec<char>, n: usize) -> (out: Vec<char>)
    ensures
        out@ == if n <= v@.len() {
            v@.take(n as int)
        } else {
            v@
        },
{
    let n = if n <= v.len() {
        n
    } else {
        v.len()
    };
    assert(v@.take(v@.len() as int) =~= v@);
    let mut out: Vec<char> = Vec::new();
    let mut i: usize = 0;
    while i < n
        invariant
            i <= n <= v.len(),
            out@ == v@.take(i as int),
        decreases n - i,
    {
        out.push(v[i]);
        i += 1;
        assert(out@ =~= v@.take(i as int));
    }
    out
}

/// The characters of `v` from position `n` on; none where it has fewer.
pub fn suffix(v: &Vec<char>, n: usize) -> (out: Vec<char>)
    ensures
        out@ == if n <= v@.len() {
            v@.skip(n as int)
        } else {
            Seq::empty()
        },
{
    if n > v.len() {
        return Vec::new();
    }
    let mut out: Vec<char> = Vec::new();
    let mut i: usize = n;
    while i < v.len()
        invariant
            n <= i <= v.len(),
            out@ == v@.subrange(n as int, i as int),
        decreases v.len() - i,
    {
        out.push(v[i]);
        i += 1;
        assert(out@ =~= v@.subrange(n as int, i as int));
    }
    assert(out@ =~= v@.skip(n as int));
    out
}

/// `s` up to its first occurrence of `c`, or all of it.
pub open spec fn before_char(s: Seq<char>, c: char) -> Seq<char>
    decreases s.len(),
{
    if s.len() == 0 {
        s
    } else if before_char(s.drop_last(), c).len() < s.len() - 1 {
        before_char(s.drop_last(), c)
    } else if s.last() == c {
        s.drop_last()
    } else {
        s
    }
}

/// Cuts `v` at its first `c`.
pub fn cut_at(v: &Vec<char>, c: char) -> (out: Vec<char>)
    ensures
        out@ == before_char(v@, c),
{
    let mut out: Vec<char> = Vec::new();
    let mut i: usize = 0;
    assert(v@.take(0) =~= Seq::<char>::empty());
    while i < v.len()
        invariant
            i <= v.len(),
            out@ == v@.take(i as int),
            before_char(v@.take(i as int), c) == v@.take(i as int),
        decreases v.len() - i,
    {
        proof {
            assert(v@.take(i as int + 1).drop_last() =~= v@.take(i as int));
            assert(v@.take(i as int + 1).last() == v@[i as int]);
        }
        if v[i] == c {
            proof {
                lemma_before_char_found(v@, c, i as int);
            }
            return out;
        }
        out.push(v[i]);
        i += 1;
        assert(out@ =~= v@.take(i as int));
    }
    assert(v@.take(i as int) =~= v@);
    out
}

/// Once the character was found, the cut stays where it is however the
/// text goes on.
pub proof fn lemma_before_char_found(s: Seq<char>, c: char, i: int)
    requires
        0 <= i < s.len(),
        s[i] == c,
        before_char(s.take(i), c) == s.take(i),
    ensures
        before_char(s, c) == s.take(i),
    decreases s.len() - i,
{
    let t = s.take(i + 1);
    assert(t.drop_last() =~= s.take(i));
    assert(t.last() == c);
    assert(before_char(t, c) == s.take(i));
    lemma_before_char_grows(s, c, i + 1, i);
}

/// A cut that lies before the end of a prefix is the cut of every longer
/// prefix.
pub proof fn lemma_before_char_grows(s: Seq<char>, c: char, n: int, i: int)
    requires
        0 <= i < n <= s.len(),
        before_char(s.take(n), c) == s.take(i),
    ensures
        before_char(s, c) == s.take(i),
    decreases s.len() - n,
{
    if n < s.len() {
        let t = s.take(n + 1);
        assert(t.drop_last() =~= s.take(n));
        assert(s.take(i).len() == i);
        lemma_before_char_grows(s, c, n + 1, i);
    } else {
        assert(s.take(n) =~= s);
    }
}

/// A cut is a prefix of the text.
pub proof fn lemma_before_char_prefix(s: Seq<char>, c: char)
    ensures
        before_char(s, c).len() <= s.len(),
        before_char(s, c) == s.take(before_char(s, c).len() as int),
    decreases s.len(),
{
    if s.len() > 0 {
        lemma_before_char_prefix(s.drop_last(), c);
        let b = before_char(s.drop_last(), c);
        if b.len() < s.len() - 1 {
            assert(s.drop_last().take(b.len() as int) =~= s.take(b.len() as int));
        } else if s.last() == c {
            assert(s.drop_last() =~= s.take(s.len() - 1));
        } else {
            assert(s.take(s.len() as int) =~= s);
        }
    } else {
        assert(s.take(0) =~= s);
    }
}

/// Whether two texts are the same.
pub fn same_chars(a: &Vec<char>, b: &Vec<char>) -> (r: bool)
    ensures
        r == (a@ == b@),
{
    if a.len() != b.len() {
        return false;
    }
    let r = matches_at(a, b, 0);
    proof {
        assert(a@.subrange(0, 0 + b@.len() as int) =~= a@);
    }
    r
}

/// Every character of `s` is whitespace.
pub open spec fn is_blank(s: Seq<char>) -> bool {
    forall|i: int| 0 <= i < s.len() ==> is_space(#[trigger] s[i])
}

/// A text is blank exactly when nothing is left of it after trimming.
pub proof fn lemma_blank_trim(s: Seq<char>)
    ensures
        is_blank(s) <==> trim(s).len() == 0,
    decreases s.len(),
{
    lemma_trim_start_skip(s);
    let n = leading_spaces(s) as int;
    lemma_leading_all_space(s);
    if n == s.len() {
        assert(trim_start(s) =~= Seq::<char>::empty());
    } else {
        lemma_leading_stop(s);
        let t = trim_start(s);
        assert(t[0] == s[n]);
        lemma_trim_end_keeps_first(t);
        assert(!is_space(s[n]));
    }
}

/// The characters counted as leading whitespace are whitespace.
pub proof fn lemma_leading_all_space(s: Seq<char>)
    ensures
        leading_spaces(s) <= s.len(),
        forall|k: int| 0 <= k < leading_spaces(s) ==> is_space(#[trigger] s[k]),
    decreases s.len(),
{
    if s.len() > 0 && is_space(s[0]) {
        lemma_leading_all_space(s.drop_first());
        assert forall|k: int| 0 <= k < leading_spaces(s) implies is_space(#[trigger] s[k]) by {
            if k > 0 {
                assert(s[k] == s.drop_first()[k - 1]);
            }
        }
    }
}

/// The character after the leading whitespace is no whitespace.
pub proof fn lemma_leading_stop(s: Seq<char>)
    ensures
        leading_spaces(s) <= s.len(),
        leading_spaces(s) < s.len() ==> !is_space(s[leading_spaces(s) as int]),
    decreases s.len(),
{
    if s.len() > 0 && is_space(s[0]) {
        lemma_leading_stop(s.drop_first());
    }
}

/// Trimming the end of a text that starts with no whitespace leaves that
/// start in place.
pub proof fn lemma_trim_end_keeps_first(t: Seq<char>)
    requires
        t.len() > 0,
        !is_space(t[0]),
    ensures
        trim_end(t).len() > 0,
    decreases t.len(),
{
    if is_space(t.last()) {
        assert(t.len() > 1);
        lemma_trim_end_keeps_first(t.drop_last());
    }
}

/// Whether every character of `v` is whitespace.
pub fn blank(v: &Vec<char>) -> (b: bool)
    ensures
        b == is_blank(v@),
        b == (trim(v@).len() == 0),
{
    proof {
        lemma_blank_trim(v@);
    }
    let mut i: usize = 0;
    while i < v.len()
        invariant
            i <= v.len(),
            is_blank(v@) <==> trim(v@).len() == 0,
            forall|k: int| 0 <= k < i ==> is_space(#[trigger] v@[k]),
        decreases v.len() - i,
    {
        if !v[i].is_whitespace() {
            assert(!is_space(v@[i as int]));
            return false;
        }
        i += 1;
    }
    true
}

/// While splitting into words: the words finished so far, and the word
/// that is being read.
pub struct WordState {
    pub done: Seq<Seq<char>>,
    pub word: Seq<char>,
}

/// The state after one more character: whitespace ends the word that is
/// being read, anything else joins it.
pub open spec fn word_step(st: WordState, c: char) -> WordState {
    if is_space(c) {
        if st.word.len() > 0 {
            WordState { done: st.done.push(st.word), word: Seq::empty() }
        } else {
            st
        }
    } else {
        WordState { done: st.done, word: st.word.push(c) }
    }
}

/// The state after the characters of `s`.
pub open spec fn word_run(s: Seq<char>) -> WordState
    decreases s.len(),
{
    if s.len() == 0 {
        WordState { done: Seq::empty(), word: Seq::empty() }
    } else {
        word_step(word_run(s.drop_last()), s.last())
    }
}

/// The words of a text: its longest runs of characters that are no
/// whitespace, in order.
pub open spec fn words_of(s: Seq<char>) -> Seq<Seq<char>> {
    let st = word_run(s);
    if st.word.len() > 0 {
        st.done.push(st.word)
    } else {
        st.done
    }
}

/// Splits `v` into words.
pub fn split_words(v: &Vec<char>) -> (out: Vec<Vec<char>>)
    ensures
        views(out@) == words_of(v@),
{
    let mut done: Vec<Vec<char>> = Vec::new();
    let mut word: Vec<char> = Vec::new();
    let mut i: usize = 0;
    assert(v@.take(0) =~= Seq::<char>::empty());
    assert(views(done@) =~= Seq::<Seq<char>>::empty());
    while i < v.len()
        invariant
            i <= v.len(),
            views(done@) == word_run(v@.take(i as int)).done,
            word@ == word_run(v@.take(i as int)).word,
        decreases v.len() - i,
    {
        proof {
            assert(v@.take(i as int + 1).drop_last() =~= v@.take(i as int));
            assert(v@.take(i as int + 1).last() == v@[i as int]);
        }
        let c = v[i];
        let ghost done0 = done@;
        if c.is_whitespace() {
            if word.len() > 0 {
                let ghost w = word@;
                done.push(word);
                word = Vec::new();
                assert(views(done@) =~= views(done0).push(w));
            }
        } else {
            word.push(c);
        }
        i += 1;
    }
    assert(v@.take(i as int) =~= v@);
    if word.len() > 0 {
        let ghost done0 = done@;
        let ghost w = word@;
        done.push(word);
        assert(views(done@) =~= views(done0).push(w));
    }
    done
}

/// `s` with spaces in front, up to `width` characters in all.
pub open spec fn pad_left(s: Seq<char>, width: nat) -> Seq<char>
    decreases width - s.len(),
{
    if s.len() >= width {
        s
    } else {
        pad_left(seq![' '] + s, width)
    }
}

/// Pads `v` with spaces in front, up to `width` characters in all.
pub fn pad_left_chars(v: &Vec<char>, width: usize) -> (out: Vec<char>)
    ensures
        out@ == pad_left(v@, width as nat),
{
    let mut out: Vec<char> = Vec::new();
    let mut n: usize = v.len();
    proof {
        assert(out@ + v@ =~= v@);
    }
    while n < width
        invariant
            n == out@.len() + v@.len(),
            pad_left(v@, width as nat) == pad_left(out@ + v@, width as nat),
            forall|k: int| 0 <= k < out@.len() ==> out@[k] == ' ',
        decreases width - n,
    {
        let ghost before = out@;
        out.push(' ');
        n += 1;
        proof {
            assert(seq![' '] + (before + v@) =~= out@ + v@) by {
                assert forall|k: int| 0 <= k < out@.len() + v@.len() implies (seq![' '] + (before
                    + v@))[k] == (out@ + v@)[k] by {}
            }
        }
    }
    push_all(&mut out, v);
    out
}

/// A segment of a path names something: it is not empty and not a single
/// full stop.
pub open spec fn names_part(segment: Seq<char>) -> bool {
    segment.len() > 0 && segment != seq!['.']
}

/// The last of the segments that names something.
pub open spec fn last_part(segments: Seq<Seq<char>>) -> Option<Seq<char>>
    decreases segments.len(),
{
    if segments.len() == 0 {
        None
    } else if names_part(segments.last()) {
        Some(segments.last())
    } else {
        last_part(segments.drop_last())
    }
}

/// The file name of a path, as `std::path::Path::file_name` tells it of a
/// path with `/` as its separator: the last segment between slashes that
/// is not empty and not a single full stop, so that slashes and `/.` at
/// the end of the path are passed over. There is none where that segment
/// is `..`, and where the path has no such segment. A backslash separates
/// nothing.
pub open spec fn file_name_of(path: Seq<char>) -> Option<Seq<char>> {
    match last_part(split_on(path, '/')) {
        Some(name) => if name == seq!['.', '.'] {
            None
        } else {
            Some(name)
        },
        None => None,
    }
}

/// The extension of a file name, as `std::path::Path::extension` tells
/// it: what follows the last full stop. There is none where the name has
/// no full stop, and where its only full stop is its first character.
pub open spec fn name_extension(name: Seq<char>) -> Option<Seq<char>> {
    let parts = split_on(name, '.');
    if parts.len() < 2 {
        None
    } else if parts.len() == 2 && parts[0].len() == 0 {
        None
    } else {
        Some(parts.last())
    }
}

/// The extension of a path: that of its file name, where it has one.
pub open spec fn extension_of(path: Seq<char>) -> Option<Seq<char>> {
    match file_name_of(path) {
        Some(name) => name_extension(name),
        None => None,
    }
}

/// The file name of a path.
pub fn file_name(path: &Vec<char>) -> (r: Option<Vec<char>>)
    ensures
        r is Some <==> file_name_of(path@) is Some,
        r is Some ==> r->Some_0@ == file_name_of(path@)->Some_0,
{
    let mut parts = split_chars(path, '/');
    let ghost all = views(parts@);
    let mut n = parts.len();
    assert(all.take(n as int) =~= all);
    while n > 0
        invariant
            n <= parts@.len(),
            parts@.len() == all.len(),
            all == split_on(path@, '/'),
            forall|k: int| 0 <= k < n ==> (#[trigger] parts@[k])@ == all[k],
            last_part(all) == last_part(all.take(n as int)),
        decreases n,
    {
        proof {
            assert(all.take(n as int).drop_last() =~= all.take(n as int - 1));
            assert(all.take(n as int).last() == all[n as int - 1]);
        }
        let len = parts[n - 1].len();
        let ghost seg = parts@[n as int - 1]@;
        let dot = len == 1 && parts[n - 1][0] == '.';
        proof {
            let one = seq!['.'];
            assert(one.len() == 1 && one[0] == '.');
            if dot {
                assert(seg =~= one);
            }
            assert(dot <==> seg == one);
        }
        if len > 0 && !dot {
            let up = len == 2 && parts[n - 1][0] == '.' && parts[n - 1][1] == '.';
            proof {
                let two = seq!['.', '.'];
                assert(two.len() == 2 && two[0] == '.' && two[1] == '.');
                if up {
                    assert(seg =~= two);
                }
                assert(up <==> seg == two);
                assert(names_part(seg));
                assert(last_part(all) == Some(seg));
            }
            if up {
                return None;
            }
            let mut name: Vec<char> = Vec::new();
            parts.set_and_swap(n - 1, &mut name);
            return Some(name);
        }
        proof {
            assert(!names_part(seg));
        }
        n -= 1;
    }
    assert(all.take(0) =~= Seq::<Seq<char>>::empty());
    None
}

/// The extension of a path.
pub fn extension(path: &Vec<char>) -> (r: Option<Vec<char>>)
    ensures
        r is Some <==> extension_of(path@) is Some,
        r is Some ==> r->Some_0@ == extension_of(path@)->Some_0,
{
    let name = match file_name(path) {
        Some(name) => name,
        None => {
            return None;
        },
    };
    let mut parts = split_chars(&name, '.');
    let n = parts.len();
    if n < 2 {
        return None;
    }
    if n == 2 && parts[0].len() == 0 {
        return None;
    }
    let mut last: Vec<char> = Vec::new();
    parts.set_and_swap(n - 1, &mut last);
    Some(last)
}

/// The characters of each string.
pub fn strings_as_chars(v: &Vec<String>) -> (out: Vec<Vec<char>>)
    ensures
        views(out@) == str_views(v@),
{
    let mut out: Vec<Vec<char>> = Vec::new();
    let mut i: usize = 0;
    while i < v.len()
        invariant
            i <= v.len(),
            out@.len() == i,
            forall|k: int| 0 <= k < i ==> (#[trigger] out@[k])@ == v@[k]@,
        decreases v.len() - i,
    {
        out.push(chars_of(v[i].as_str()));
        i += 1;
    }
    assert(views(out@) =~= str_views(v@));
    out
}

/// Whether two strings hold the same text.
pub fn text_is(a: &str, b: &str) -> (r: bool)
    ensures
        r == (a@ == b@),
{
    same_chars(&chars_of(a), &chars_of(b))
}

/// The strings of `parts`, one per element.
pub fn strings_of(parts: &Vec<Vec<char>>) -> (out: Vec<String>)
    ensures
        str_views(out@) == views(parts@),
{
    let mut out: Vec<String> = Vec::new();
    let mut i: usize = 0;
    while i < parts.len()
        invariant
            i <= parts.len(),
            out@.len() == i,
            forall|k: int| 0 <= k < i ==> (#[trigger] out@[k])@ == parts@[k]@,
        decreases parts.len() - i,
    {
        out.push(string_of(&parts[i]));
        i += 1;
    }
    assert(str_views(out@) =~= views(parts@));
    out
}

} // verus!
