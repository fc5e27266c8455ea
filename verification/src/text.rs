//! Text primitives over character sequences.
//!
//! A `&str` or `String` is viewed as its sequence of characters; everything the
//! rest of the crate says about text is said over that view.

use vstd::prelude::*;

verus! {

/// The characters with the Unicode `White_Space` property.
pub open spec fn is_white(c: char) -> bool {
    let u = c as u32;
    ||| 0x09 <= u <= 0x0d
    ||| u == 0x20
    ||| u == 0x85
    ||| u == 0xa0
    ||| u == 0x1680
    ||| 0x2000 <= u <= 0x200a
    ||| u == 0x2028
    ||| u == 0x2029
    ||| u == 0x202f
    ||| u == 0x205f
    ||| u == 0x3000
}

/// `s` without its leading white space.
pub open spec fn trim_start(s: Seq<char>) -> Seq<char>
    decreases s.len(),
{
    if s.len() > 0 && is_white(s[0]) {
        trim_start(s.subrange(1, s.len() as int))
    } else {
        s
    }
}

/// `s` without its trailing white space.
pub open spec fn trim_end(s: Seq<char>) -> Seq<char>
    decreases s.len(),
{
    if s.len() > 0 && is_white(s.last()) {
        trim_end(s.drop_last())
    } else {
        s
    }
}

/// `s` without white space at either end.
pub open spec fn trim(s: Seq<char>) -> Seq<char> {
    trim_end(trim_start(s))
}

/// `s` begins with `p`.
pub open spec fn starts_with<T>(s: Seq<T>, p: Seq<T>) -> bool {
    p.len() <= s.len() && s.subrange(0, p.len() as int) == p
}

/// `s` ends with `p`.
pub open spec fn ends_with<T>(s: Seq<T>, p: Seq<T>) -> bool {
    p.len() <= s.len() && s.subrange(s.len() - p.len(), s.len() as int) == p
}

/// `p` stands in `s` beginning at index `i`.
pub open spec fn occurs_at<T>(s: Seq<T>, p: Seq<T>, i: int) -> bool {
    0 <= i && i + p.len() <= s.len() && s.subrange(i, i + p.len()) == p
}

/// `p` stands somewhere in `s`.
pub open spec fn has_part<T>(s: Seq<T>, p: Seq<T>) -> bool {
    exists|i: int| #[trigger] occurs_at(s, p, i)
}

/// What follows the prefix `p`, where there is one.
pub open spec fn strip_prefix<T>(s: Seq<T>, p: Seq<T>) -> Option<Seq<T>> {
    if starts_with(s, p) {
        Some(s.subrange(p.len() as int, s.len() as int))
    } else {
        None
    }
}

/// What precedes the suffix `p`, where there is one.
pub open spec fn strip_suffix<T>(s: Seq<T>, p: Seq<T>) -> Option<Seq<T>> {
    if ends_with(s, p) {
        Some(s.subrange(0, s.len() - p.len()))
    } else {
        None
    }
}

/// The pieces of `s` between separators: always at least one, and one more than
/// there are separators.
pub open spec fn split<T>(s: Seq<T>, sep: T) -> Seq<Seq<T>>
    decreases s.len(),
{
    if s.len() == 0 {
        seq![Seq::<T>::empty()]
    } else {
        let head = split(s.drop_last(), sep);
        if s.last() == sep {
            head.push(Seq::<T>::empty())
        } else {
            head.drop_last().push(head.last().push(s.last()))
        }
    }
}

/// A line without the carriage return that ended it.
pub open spec fn chop_cr(line: Seq<char>) -> Seq<char> {
    if line.len() > 0 && line.last() == '\r' {
        line.drop_last()
    } else {
        line
    }
}

/// The lines of `s`: what `\n` or `\r\n` terminates, and a last unterminated
/// line unless it is empty.
pub open spec fn lines(s: Seq<char>) -> Seq<Seq<char>> {
    let pieces = split(s, '\n');
    let full = Seq::new((pieces.len() - 1) as nat, |i: int| chop_cr(pieces[i]));
    if pieces.last().len() == 0 {
        full
    } else {
        full.push(pieces.last())
    }
}

/// The words of `s` finished so far and the word still open at its end.
pub open spec fn word_state(s: Seq<char>) -> (Seq<Seq<char>>, Seq<char>)
    decreases s.len(),
{
    if s.len() == 0 {
        (Seq::empty(), Seq::empty())
    } else {
        let (done, open) = word_state(s.drop_last());
        if !is_white(s.last()) {
            (done, open.push(s.last()))
        } else if open.len() > 0 {
            (done.push(open), Seq::empty())
        } else {
            (done, open)
        }
    }
}

/// The maximal runs of characters that are not white space.
pub open spec fn words(s: Seq<char>) -> Seq<Seq<char>> {
    let (done, open) = word_state(s);
    if open.len() > 0 {
        done.push(open)
    } else {
        done
    }
}

/// The pieces written one after the other with `sep` between them.
pub open spec fn join(parts: Seq<Seq<char>>, sep: Seq<char>) -> Seq<char>
    decreases parts.len(),
{
    if parts.len() == 0 {
        Seq::empty()
    } else if parts.len() == 1 {
        parts[0]
    } else {
        join(parts.drop_last(), sep) + sep + parts.last()
    }
}

/// `s` with `with` in place of every `c`.
pub open spec fn replace_char(s: Seq<char>, c: char, with: Seq<char>) -> Seq<char>
    decreases s.len(),
{
    if s.len() == 0 {
        Seq::empty()
    } else {
        replace_char(s.drop_last(), c, with) + (if s.last() == c {
            with
        } else {
            seq![s.last()]
        })
    }
}

/// The views of a list of strings.
pub open spec fn texts(v: Seq<String>) -> Seq<Seq<char>> {
    Seq::new(v.len(), |i: int| v[i]@)
}

/// The views of a list of values.
pub open spec fn views<T: View>(v: Seq<T>) -> Seq<T::V> {
    Seq::new(v.len(), |i: int| v[i]@)
}

/// The UTF-8 bytes of a text.
pub open spec fn bytes(s: Seq<char>) -> Seq<u8> {
    vstd::utf8::encode_utf8(s)
}

/// The view of an optional string.
pub open spec fn opt(s: Option<String>) -> Option<Seq<char>> {
    match s {
        Some(t) => Some(t@),
        None => None,
    }
}

/// The list of words holds `w`.
pub open spec fn listed(v: Seq<String>, w: Seq<char>) -> bool {
    exists|i: int| 0 <= i < v.len() && #[trigger] v[i]@ == w
}

/// The decimal digit `d`.
pub open spec fn digit(d: nat) -> char {
    ((48 + d) as u8) as char
}

/// The decimal numeral of `n`, without leading zeros.
pub open spec fn decimal(n: nat) -> Seq<char>
    decreases n,
{
    if n < 10 {
        seq![digit(n)]
    } else {
        decimal(n / 10).push(digit(n % 10))
    }
}

/// The decimal numeral of a possibly negative `n`.
pub open spec fn signed_decimal(n: int) -> Seq<char> {
    if n < 0 {
        seq!['-'] + decimal((-n) as nat)
    } else {
        decimal(n as nat)
    }
}

/// The value of `c` as a digit of the base, which is at most sixteen.
pub open spec fn digit_value(c: char, base: nat) -> Option<nat> {
    let v = if '0' <= c && c <= '9' {
        (c as u32 - 48) as nat
    } else if 'a' <= c && c <= 'f' {
        (c as u32 - 87) as nat
    } else if 'A' <= c && c <= 'F' {
        (c as u32 - 55) as nat
    } else {
        16
    };
    if v < base {
        Some(v)
    } else {
        None
    }
}

/// Every character of `s` is a digit of the base.
pub open spec fn all_digits(s: Seq<char>, base: nat) -> bool {
    forall|i: int| 0 <= i < s.len() ==> digit_value(#[trigger] s[i], base) is Some
}

/// The number that a string of digits of the base writes.
pub open spec fn numeral_value(s: Seq<char>, base: nat) -> nat
    decreases s.len(),
{
    if s.len() == 0 {
        0
    } else {
        numeral_value(s.drop_last(), base) * base + digit_value(s.last(), base).unwrap_or(0)
    }
}

/// A numeral without the one plus sign it may begin with.
pub open spec fn unsigned_part(s: Seq<char>) -> Seq<char> {
    if s.len() > 0 && s[0] == '+' {
        s.subrange(1, s.len() as int)
    } else {
        s
    }
}

/// The unsigned number that `s` writes in the base, where it writes one of at
/// most `max`: an optional plus sign and at least one digit.
pub open spec fn parse_number(s: Seq<char>, base: nat, max: nat) -> Option<nat> {
    let d = unsigned_part(s);
    if d.len() > 0 && all_digits(d, base) && numeral_value(d, base) <= max {
        Some(numeral_value(d, base))
    } else {
        None
    }
}

/// The ASCII letters and digits.
pub open spec fn is_alnum(c: char) -> bool {
    ||| '0' <= c && c <= '9'
    ||| 'a' <= c && c <= 'z'
    ||| 'A' <= c && c <= 'Z'
}

/// `c` with an ASCII capital made small.
pub open spec fn lower_char(c: char) -> char {
    if 'A' <= c && c <= 'Z' {
        ((c as u8) + 32) as u8 as char
    } else {
        c
    }
}

/// `s` with its ASCII capitals made small.
pub open spec fn ascii_lower(s: Seq<char>) -> Seq<char> {
    Seq::new(s.len(), |i: int| lower_char(s[i]))
}

/// `c` with a small ASCII letter made capital.
pub open spec fn upper_char(c: char) -> char {
    if 'a' <= c && c <= 'z' {
        ((c as u8) - 32) as u8 as char
    } else {
        c
    }
}

/// `s` with its small ASCII letters made capital.
pub open spec fn ascii_upper(s: Seq<char>) -> Seq<char> {
    Seq::new(s.len(), |i: int| upper_char(s[i]))
}

/// `a` comes before or is `b` in the order of code points, which is also the
/// order of the UTF-8 bytes.
pub open spec fn text_le(a: Seq<char>, b: Seq<char>) -> bool
    decreases a.len(),
{
    if a.len() == 0 {
        true
    } else if b.len() == 0 {
        false
    } else if a[0] != b[0] {
        a[0] < b[0]
    } else {
        text_le(a.subrange(1, a.len() as int), b.subrange(1, b.len() as int))
    }
}

// ---------------------------------------------------------------------------
// Facts about them
// ---------------------------------------------------------------------------

/// A text without the separator is its own single piece.
pub proof fn split_without_separator<T>(s: Seq<T>, sep: T)
    requires
        !s.contains(sep),
    ensures
        split(s, sep) == seq![s],
    decreases s.len(),
{
    if s.len() > 0 {
        let t = s.drop_last();
        assert forall|i: int| 0 <= i < t.len() implies t[i] != sep by {
            assert(s[i] == t[i]);
        }
        split_without_separator(t, sep);
        assert(s[s.len() - 1] != sep);
        assert(split(s, sep) =~= seq![t.push(s.last())]);
        assert(t.push(s.last()) =~= s);
    } else {
        assert(s =~= Seq::<T>::empty());
    }
}

/// Splitting at a separator splits both sides of it.
pub proof fn split_at_separator<T>(a: Seq<T>, sep: T, b: Seq<T>)
    ensures
        split(a.push(sep) + b, sep) == split(a, sep) + split(b, sep),
    decreases b.len(),
{
    let all = a.push(sep) + b;
    if b.len() == 0 {
        assert(all =~= a.push(sep));
        assert(a.push(sep).drop_last() =~= a);
        assert(split(b, sep) =~= seq![Seq::<T>::empty()]);
        assert(split(all, sep) =~= split(a, sep) + split(b, sep));
    } else {
        let t = b.drop_last();
        split_at_separator(a, sep, t);
        assert(all.drop_last() =~= a.push(sep) + t);
        assert(all.last() == b.last());
        split_has_a_piece(t, sep);
        let x = split(a, sep);
        let y = split(t, sep);
        if b.last() == sep {
            assert((x + y).push(Seq::<T>::empty()) =~= x + y.push(Seq::<T>::empty()));
        } else {
            assert((x + y).drop_last() =~= x + y.drop_last());
            assert((x + y).last() == y.last());
            let z = y.last().push(b.last());
            assert((x + y.drop_last()).push(z) =~= x + y.drop_last().push(z));
        }
    }
}

/// A split has at least one piece.
pub proof fn split_has_a_piece<T>(s: Seq<T>, sep: T)
    ensures
        split(s, sep).len() >= 1,
    decreases s.len(),
{
    if s.len() > 0 {
        split_has_a_piece(s.drop_last(), sep);
    }
}

/// The numeral of a number is made of digits and reads back as that number.
pub proof fn decimal_reads_back(n: nat)
    ensures
        decimal(n).len() >= 1,
        all_digits(decimal(n), 10),
        numeral_value(decimal(n), 10) == n,
        forall|i: int|
            0 <= i < decimal(n).len() ==> '0' <= #[trigger] decimal(n)[i] && decimal(n)[i] <= '9',
    decreases n,
{
    if n < 10 {
        let s = decimal(n);
        assert(s.drop_last() =~= Seq::<char>::empty());
        assert(digit_value(digit(n), 10) == Some(n));
        assert(numeral_value(s.drop_last(), 10) == 0);
    } else {
        decimal_reads_back(n / 10);
        let s = decimal(n);
        let d = digit(n % 10);
        assert(s.drop_last() =~= decimal(n / 10));
        assert(digit_value(d, 10) == Some(n % 10));
        assert forall|i: int| 0 <= i < s.len() implies digit_value(#[trigger] s[i], 10) is Some
            && '0' <= s[i] && s[i] <= '9' by {
            if i < s.len() - 1 {
                assert(s[i] == decimal(n / 10)[i]);
            }
        }
    }
}

/// Parsing the numeral of a number gives the number back, where it fits.
pub proof fn decimal_parses(n: nat, max: nat)
    requires
        n <= max,
    ensures
        parse_number(decimal(n), 10, max) == Some(n),
{
    decimal_reads_back(n);
    assert(decimal(n)[0] != '+');
}

/// A text of no white space is one word in the making.
proof fn word_state_of_word(a: Seq<char>)
    requires
        forall|i: int| 0 <= i < a.len() ==> !is_white(#[trigger] a[i]),
    ensures
        word_state(a) == (Seq::<Seq<char>>::empty(), a),
    decreases a.len(),
{
    if a.len() > 0 {
        let t = a.drop_last();
        assert forall|i: int| 0 <= i < t.len() implies !is_white(#[trigger] t[i]) by {
            assert(t[i] == a[i]);
        }
        word_state_of_word(t);
        assert(!is_white(a[a.len() - 1]));
        assert(t.push(a.last()) =~= a);
    } else {
        assert(a =~= Seq::<char>::empty());
    }
}

proof fn word_state_after_word(a: Seq<char>, b: Seq<char>)
    requires
        a.len() > 0,
        forall|i: int| 0 <= i < a.len() ==> !is_white(#[trigger] a[i]),
    ensures
        word_state(a.push(' ') + b) == (seq![a] + word_state(b).0, word_state(b).1),
    decreases b.len(),
{
    let all = a.push(' ') + b;
    if b.len() == 0 {
        word_state_of_word(a);
        assert(all =~= a.push(' '));
        assert(a.push(' ').drop_last() =~= a);
        assert(Seq::<Seq<char>>::empty().push(a) =~= seq![a] + word_state(b).0);
    } else {
        let t = b.drop_last();
        word_state_after_word(a, t);
        assert(all.drop_last() =~= a.push(' ') + t);
        assert(all.last() == b.last());
        let (done, open) = word_state(t);
        assert((seq![a] + done).push(open) =~= seq![a] + done.push(open));
    }
}

/// A word and a space in front of a text put that word in front of its words.
pub proof fn words_after_word(a: Seq<char>, b: Seq<char>)
    requires
        a.len() > 0,
        forall|i: int| 0 <= i < a.len() ==> !is_white(#[trigger] a[i]),
    ensures
        words(a.push(' ') + b) == seq![a] + words(b),
{
    word_state_after_word(a, b);
    let (done, open) = word_state(b);
    if open.len() > 0 {
        assert((seq![a] + done).push(open) =~= seq![a] + done.push(open));
    }
}

/// A text of no white space is its own single word.
pub proof fn words_of_word(a: Seq<char>)
    requires
        a.len() > 0,
        forall|i: int| 0 <= i < a.len() ==> !is_white(#[trigger] a[i]),
    ensures
        words(a) == seq![a],
{
    word_state_of_word(a);
    assert(Seq::<Seq<char>>::empty().push(a) =~= seq![a]);
}

/// A text of no white space at its ends is its own trimming.
pub proof fn trim_of_tight(s: Seq<char>)
    requires
        s.len() == 0 || (!is_white(s[0]) && !is_white(s.last())),
    ensures
        trim(s) == s,
{
}

proof fn trim_start_is_tight(s: Seq<char>)
    ensures
        trim_start(s).len() > 0 ==> !is_white(trim_start(s)[0]),
    decreases s.len(),
{
    if s.len() > 0 && is_white(s[0]) {
        trim_start_is_tight(s.subrange(1, s.len() as int));
    }
}

proof fn trim_end_is_tight(s: Seq<char>)
    ensures
        trim_end(s).len() > 0 ==> !is_white(trim_end(s).last()) && trim_end(s)[0] == s[0],
        trim_end(s).len() <= s.len(),
    decreases s.len(),
{
    if s.len() > 0 && is_white(s.last()) {
        trim_end_is_tight(s.drop_last());
    }
}

/// Trimming leaves no white space at either end, so trimming again changes nothing.
pub proof fn trim_is_tight(s: Seq<char>)
    ensures
        trim(s).len() > 0 ==> !is_white(trim(s)[0]) && !is_white(trim(s).last()),
        trim(trim(s)) == trim(s),
{
    trim_start_is_tight(s);
    trim_end_is_tight(trim_start(s));
    trim_of_tight(trim(s));
}

proof fn trim_start_before_white(s: Seq<char>, c: char)
    requires
        is_white(c),
    ensures
        trim_start(s.push(c)) == (if trim_start(s).len() == 0 {
            Seq::empty()
        } else {
            trim_start(s).push(c)
        }),
    decreases s.len(),
{
    let t = s.push(c);
    if s.len() == 0 {
        assert(t.subrange(1, 1) =~= Seq::<char>::empty());
        assert(trim_start(t) == trim_start(t.subrange(1, 1)));
        assert(trim_start(s) =~= Seq::<char>::empty());
    } else if is_white(s[0]) {
        let rest = s.subrange(1, s.len() as int);
        trim_start_before_white(rest, c);
        assert(t.subrange(1, t.len() as int) =~= rest.push(c));
    }
}

/// White space at the end of a text changes neither its trimming nor its words.
pub proof fn trailing_white_is_nothing(s: Seq<char>, c: char)
    requires
        is_white(c),
    ensures
        trim(s.push(c)) == trim(s),
        words(s.push(c)) == words(s),
{
    trim_start_before_white(s, c);
    let front = trim_start(s);
    if front.len() > 0 {
        assert(front.push(c).drop_last() =~= front);
    } else {
        assert(front =~= Seq::<char>::empty());
    }
    assert(s.push(c).drop_last() =~= s);
}

proof fn trim_start_drops_white(s: Seq<char>) -> (n: int)
    ensures
        0 <= n <= s.len(),
        trim_start(s) == s.subrange(n, s.len() as int),
        forall|i: int| 0 <= i < n ==> is_white(#[trigger] s[i]),
    decreases s.len(),
{
    if s.len() > 0 && is_white(s[0]) {
        let rest = s.subrange(1, s.len() as int);
        let n = trim_start_drops_white(rest);
        assert(rest.subrange(n, rest.len() as int) =~= s.subrange(n + 1, s.len() as int));
        assert forall|i: int| 0 <= i < n + 1 implies is_white(#[trigger] s[i]) by {
            if i > 0 {
                assert(s[i] == rest[i - 1]);
            }
        }
        n + 1
    } else {
        assert(s.subrange(0, s.len() as int) =~= s);
        0
    }
}

proof fn trim_end_drops_white(s: Seq<char>) -> (n: int)
    ensures
        0 <= n <= s.len(),
        trim_end(s) == s.subrange(0, n),
        forall|i: int| n <= i < s.len() ==> is_white(#[trigger] s[i]),
    decreases s.len(),
{
    if s.len() > 0 && is_white(s.last()) {
        let rest = s.drop_last();
        let n = trim_end_drops_white(rest);
        assert(rest.subrange(0, n) =~= s.subrange(0, n));
        assert forall|i: int| n <= i < s.len() implies is_white(#[trigger] s[i]) by {
            if i < rest.len() {
                assert(s[i] == rest[i]);
            }
        }
        n
    } else {
        assert(s.subrange(0, s.len() as int) =~= s);
        s.len() as int
    }
}

/// Between `a` and `b` stands what `s` holds but white space.
pub open spec fn frames(s: Seq<char>, a: int, b: int) -> bool {
    &&& 0 <= a <= b <= s.len()
    &&& forall|i: int| 0 <= i < a ==> is_white(#[trigger] s[i])
    &&& forall|i: int| b <= i < s.len() ==> is_white(#[trigger] s[i])
}

/// Trimming takes white space off the ends and nothing else: what is left is a part of the
/// text, and all that stands in front of it or behind it is white.
pub proof fn trimming_loses_only_white(s: Seq<char>)
    ensures
        exists|a: int, b: int| #[trigger] frames(s, a, b) && trim(s) == s.subrange(a, b),
{
    let n = trim_start_drops_white(s);
    let front = trim_start(s);
    let m = trim_end_drops_white(front);
    assert(front.subrange(0, m) =~= s.subrange(n, n + m));
    assert forall|i: int| n + m <= i < s.len() implies is_white(#[trigger] s[i]) by {
        assert(s[i] == front[i - n]);
    }
    assert(frames(s, n, n + m));
}

/// A prefix and what follows it make up the text again, and so do a suffix and what
/// precedes it; a text without either gives nothing.
pub proof fn stripping_takes_off_one_end<T>(s: Seq<T>, p: Seq<T>)
    ensures
        strip_prefix(s, p) is Some ==> p + strip_prefix(s, p)->0 == s,
        strip_suffix(s, p) is Some ==> strip_suffix(s, p)->0 + p == s,
        strip_prefix(p + s, p) == Some(s),
        strip_suffix(s + p, p) == Some(s),
{
    assert((p + s).subrange(0, p.len() as int) =~= p);
    assert((p + s).subrange(p.len() as int, (p + s).len() as int) =~= s);
    assert((s + p).subrange(s.len() as int, (s + p).len() as int) =~= p);
    assert((s + p).subrange(0, s.len() as int) =~= s);
    if starts_with(s, p) {
        assert(p + s.subrange(p.len() as int, s.len() as int) =~= s) by {
            assert(s.subrange(0, p.len() as int) + s.subrange(p.len() as int, s.len() as int)
                =~= s);
        }
    }
    if ends_with(s, p) {
        let k = s.len() - p.len();
        assert(s.subrange(0, k) + s.subrange(k, s.len() as int) =~= s);
    }
}

proof fn join_of_more(parts: Seq<Seq<char>>, sep: Seq<char>, c: char)
    requires
        parts.len() > 0,
    ensures
        join(parts.drop_last().push(parts.last().push(c)), sep) == join(parts, sep).push(c),
        join(parts.push(Seq::empty()), sep) == join(parts, sep) + sep,
{
    let more = parts.drop_last().push(parts.last().push(c));
    assert(more.drop_last() =~= parts.drop_last());
    assert(more.last() == parts.last().push(c));
    if parts.len() == 1 {
        assert(more[0] == parts[0].push(c));
    } else {
        assert(join(parts.drop_last(), sep) + sep + parts.last().push(c) =~= (join(
            parts.drop_last(),
            sep,
        ) + sep + parts.last()).push(c));
    }
    let all = parts.push(Seq::empty());
    assert(all.drop_last() =~= parts);
    assert(join(parts, sep) + sep + Seq::<char>::empty() =~= join(parts, sep) + sep);
}

/// The pieces of a split, written with the separator between them, are the text again, and
/// no piece holds the separator.
pub proof fn a_split_joins_again(s: Seq<char>, sep: char)
    ensures
        join(split(s, sep), seq![sep]) == s,
        forall|i: int| 0 <= i < split(s, sep).len() ==> !(#[trigger] split(s, sep)[i]).contains(sep),
    decreases s.len(),
{
    split_has_a_piece(s, sep);
    if s.len() > 0 {
        let front = s.drop_last();
        let head = split(front, sep);
        a_split_joins_again(front, sep);
        split_has_a_piece(front, sep);
        join_of_more(head, seq![sep], s.last());
        assert(front.push(s.last()) =~= s);
        assert(front + seq![s.last()] =~= s);
        assert forall|i: int| 0 <= i < split(s, sep).len() implies !(#[trigger] split(
            s,
            sep,
        )[i]).contains(sep) by {
            let piece = split(s, sep)[i];
            assert(!head[head.len() - 1].contains(sep));
            if s.last() == sep {
                if i < head.len() {
                    assert(piece == head[i]);
                }
            } else if i < head.len() - 1 {
                assert(piece == head[i]);
            } else if piece.contains(sep) {
                let k = choose|k: int| 0 <= k < piece.len() && piece[k] == sep;
                assert(head.last()[k] == sep);
                assert(head.last().contains(sep));
            }
        }
    }
}

/// `s` without its white space.
pub open spec fn unspaced(s: Seq<char>) -> Seq<char>
    decreases s.len(),
{
    if s.len() == 0 {
        Seq::empty()
    } else if is_white(s.last()) {
        unspaced(s.drop_last())
    } else {
        unspaced(s.drop_last()).push(s.last())
    }
}

/// A word: not empty, and no white space in it.
pub open spec fn is_word(w: Seq<char>) -> bool {
    w.len() > 0 && forall|i: int| 0 <= i < w.len() ==> !is_white(#[trigger] w[i])
}

proof fn join_of_pushed(parts: Seq<Seq<char>>, one: Seq<char>)
    ensures
        join(parts.push(one), Seq::empty()) == join(parts, Seq::empty()) + one,
{
    let all = parts.push(one);
    assert(all.drop_last() =~= parts);
    if parts.len() == 0 {
        assert(Seq::<char>::empty() + one =~= one);
    } else {
        assert(join(parts, Seq::empty()) + Seq::<char>::empty() + one =~= join(parts, Seq::empty())
            + one);
    }
}

proof fn word_state_loses_only_white(s: Seq<char>)
    ensures
        join(word_state(s).0, Seq::empty()) + word_state(s).1 == unspaced(s),
        forall|i: int| 0 <= i < word_state(s).0.len() ==> is_word(#[trigger] word_state(s).0[i]),
        word_state(s).1.len() > 0 ==> is_word(word_state(s).1),
    decreases s.len(),
{
    if s.len() == 0 {
        assert(join(word_state(s).0, Seq::empty()) + word_state(s).1 =~= unspaced(s));
    } else {
        let (done, open) = word_state(s.drop_last());
        word_state_loses_only_white(s.drop_last());
        join_of_pushed(done, open);
        assert(join(done, Seq::empty()) + open.push(s.last()) =~= (join(done, Seq::empty())
            + open).push(s.last()));
        assert((join(done, Seq::empty()) + open) + Seq::<char>::empty() =~= join(
            done,
            Seq::empty(),
        ) + open);
    }
}

/// The words of a text hold all of it but its white space, in its order; each of them is a
/// word.
pub proof fn words_lose_only_white(s: Seq<char>)
    ensures
        join(words(s), Seq::empty()) == unspaced(s),
        forall|i: int| 0 <= i < words(s).len() ==> is_word(#[trigger] words(s)[i]),
{
    word_state_loses_only_white(s);
    let (done, open) = word_state(s);
    join_of_pushed(done, open);
    assert(open.len() == 0 ==> join(done, Seq::empty()) + open =~= join(done, Seq::empty()));
}

/// Making a text small changes the capitals to their small letters and nothing else.
pub proof fn only_capitals_are_made_small(c: char)
    ensures
        'A' <= c && c <= 'Z' ==> 'a' <= lower_char(c) && lower_char(c) <= 'z' && lower_char(c) as u32
            == c as u32 + 32,
        !('A' <= c && c <= 'Z') ==> lower_char(c) == c,
        lower_char(lower_char(c)) == lower_char(c),
{
}

/// A replacement puts the new text for each such character and leaves every other in its
/// place.
pub proof fn a_replacement_goes_by_character(a: Seq<char>, b: Seq<char>, c: char, with: Seq<char>)
    ensures
        replace_char(a + b, c, with) == replace_char(a, c, with) + replace_char(b, c, with),
        replace_char(seq![c], c, with) == with,
        !a.contains(c) ==> replace_char(a, c, with) == a,
    decreases a.len() + b.len(),
{
    assert(seq![c].drop_last() =~= Seq::<char>::empty());
    assert(replace_char(seq![c], c, with) =~= with) by {
        reveal_with_fuel(replace_char, 2);
    }
    if b.len() == 0 {
        assert(a + b =~= a);
        assert(replace_char(a, c, with) + Seq::<char>::empty() =~= replace_char(a, c, with));
    } else {
        let t = b.drop_last();
        a_replacement_goes_by_character(a, t, c, with);
        assert((a + b).drop_last() =~= a + t);
        let last = if b.last() == c {
            with
        } else {
            seq![b.last()]
        };
        assert(replace_char(a, c, with) + (replace_char(t, c, with) + last) =~= replace_char(
            a,
            c,
            with,
        ) + replace_char(t, c, with) + last);
    }
    if a.len() > 0 && !a.contains(c) {
        let t = a.drop_last();
        assert(!t.contains(c)) by {
            if t.contains(c) {
                let i = choose|i: int| 0 <= i < t.len() && t[i] == c;
                assert(a[i] == c);
            }
        }
        a_replacement_goes_by_character(t, Seq::empty(), c, with);
        assert(a.last() != c) by {
            assert(a.contains(a[a.len() - 1]));
        }
        assert(t + seq![a.last()] =~= a);
    }
}

/// A character that is replaced by a text without it is gone.
pub proof fn a_replaced_character_is_gone(s: Seq<char>, c: char, with: Seq<char>)
    requires
        !with.contains(c),
    ensures
        !replace_char(s, c, with).contains(c),
    decreases s.len(),
{
    if s.len() > 0 {
        a_replaced_character_is_gone(s.drop_last(), c, with);
        let before = replace_char(s.drop_last(), c, with);
        let all = replace_char(s, c, with);
        if all.contains(c) {
            let i = choose|i: int| 0 <= i < all.len() && all[i] == c;
            if i < before.len() {
                assert(before[i] == c);
                assert(before.contains(c));
            } else if s.last() == c {
                assert(with[i - before.len()] == c);
            }
        }
    }
}

/// A negative number is written as the number without its sign behind a minus.
pub proof fn a_minus_stands_before_the_number(n: nat)
    ensures
        signed_decimal(n as int) == decimal(n),
        n > 0 ==> signed_decimal(-(n as int)) == seq!['-'] + decimal(n),
{
}

} // verus!
