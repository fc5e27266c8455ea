//! Executable text functions, each proved against its meaning in [`crate::text`].

use crate::text;
use vstd::prelude::*;

verus! {

/// `String::push` appends the character to the end of the string.
pub assume_specification[ String::push ](s: &mut String, c: char)
    ensures
        final(s)@ == old(s)@.push(c),
;

/// The characters of a string.
pub fn chars(s: &str) -> (r: Vec<char>)
    ensures
        r@ == s@,
{
    let mut r: Vec<char> = Vec::new();
    for c in it: s.chars()
        invariant
            it.seq() == s@,
            r@ == s@.subrange(0, it.index() as int),
    {
        r.push(c);
        assert(r@ == s@.subrange(0, it.index() as int + 1));
    }
    assert(r@ == s@);
    r
}

/// The string of the characters from `a` up to but not including `b`.
pub fn slice(v: &Vec<char>, a: usize, b: usize) -> (r: String)
    requires
        a <= b <= v@.len(),
    ensures
        r@ == v@.subrange(a as int, b as int),
{
    let mut r = String::new();
    let mut i: usize = a;
    while i < b
        invariant
            a <= i <= b <= v@.len(),
            r@ == v@.subrange(a as int, i as int),
        decreases b - i,
    {
        r.push(v[i]);
        i = i + 1;
        assert(r@ == v@.subrange(a as int, i as int));
    }
    r
}

/// An owned copy of a string.
pub fn copy(s: &str) -> (r: String)
    ensures
        r@ == s@,
{
    let mut r = String::new();
    r.append(s);
    assert(r@ == s@);
    r
}

/// Whether two strings are the same.
pub fn same(a: &str, b: &str) -> (r: bool)
    ensures
        r == (a@ == b@),
{
    let x = chars(a);
    let y = chars(b);
    if x.len() != y.len() {
        return false;
    }
    let mut i: usize = 0;
    while i < x.len()
        invariant
            i <= x@.len(),
            x@ == a@,
            y@ == b@,
            x@.len() == y@.len(),
            forall|j: int| 0 <= j < i ==> x@[j] == y@[j],
        decreases x.len() - i,
    {
        if x[i] != y[i] {
            return false;
        }
        i = i + 1;
    }
    assert(x@ == y@);
    true
}

/// Whether `c` is white space.
pub fn is_white(c: char) -> (r: bool)
    ensures
        r == text::is_white(c),
{
    let u = c as u32;
    (0x09 <= u && u <= 0x0d) || u == 0x20 || u == 0x85 || u == 0xa0 || u == 0x1680
        || (0x2000 <= u && u <= 0x200a) || u == 0x2028 || u == 0x2029 || u == 0x202f
        || u == 0x205f || u == 0x3000
}

/// Trimming a text that begins with `i` white characters, the first other one
/// being at `i`, leaves what begins there.
proof fn trim_start_is_suffix(s: Seq<char>, i: int)
    requires
        0 <= i <= s.len(),
        forall|j: int| 0 <= j < i ==> text::is_white(#[trigger] s[j]),
        i < s.len() ==> !text::is_white(s[i]),
    ensures
        text::trim_start(s) == s.subrange(i, s.len() as int),
    decreases s.len(),
{
    if i > 0 {
        let t = s.subrange(1, s.len() as int);
        assert(text::is_white(s[0]));
        assert forall|j: int| 0 <= j < i - 1 implies text::is_white(#[trigger] t[j]) by {
            assert(t[j] == s[j + 1]);
        }
        trim_start_is_suffix(t, i - 1);
        assert(t.subrange(i - 1, t.len() as int) == s.subrange(i, s.len() as int));
    } else {
        assert(s.subrange(0, s.len() as int) == s);
    }
}

proof fn trim_end_is_prefix(s: Seq<char>, j: int)
    requires
        0 <= j <= s.len(),
        forall|k: int| j <= k < s.len() ==> text::is_white(#[trigger] s[k]),
        j > 0 ==> !text::is_white(s[j - 1]),
    ensures
        text::trim_end(s) == s.subrange(0, j),
    decreases s.len(),
{
    if j < s.len() {
        let t = s.drop_last();
        assert forall|k: int| j <= k < t.len() implies text::is_white(#[trigger] t[k]) by {
            assert(t[k] == s[k]);
        }
        trim_end_is_prefix(t, j);
        assert(t.subrange(0, j) == s.subrange(0, j));
    } else {
        assert(s.subrange(0, s.len() as int) == s);
    }
}

/// The string without white space at its front.
pub fn trim_start(s: &str) -> (r: String)
    ensures
        r@ == text::trim_start(s@),
{
    let v = chars(s);
    let mut i: usize = 0;
    while i < v.len() && is_white(v[i])
        invariant
            i <= v@.len(),
            v@ == s@,
            forall|j: int| 0 <= j < i ==> text::is_white(#[trigger] v@[j]),
        decreases v.len() - i,
    {
        i = i + 1;
    }
    proof {
        trim_start_is_suffix(s@, i as int);
    }
    slice(&v, i, v.len())
}

/// The string without white space at its end.
pub fn trim_end(s: &str) -> (r: String)
    ensures
        r@ == text::trim_end(s@),
{
    let v = chars(s);
    let mut j: usize = v.len();
    while j > 0 && is_white(v[j - 1])
        invariant
            j <= v@.len(),
            v@ == s@,
            forall|k: int| j <= k < v@.len() ==> text::is_white(#[trigger] v@[k]),
        decreases j,
    {
        j = j - 1;
    }
    proof {
        trim_end_is_prefix(s@, j as int);
    }
    slice(&v, 0, j)
}

/// The string without white space at either end.
pub fn trim(s: &str) -> (r: String)
    ensures
        r@ == text::trim(s@),
{
    let t = trim_start(s);
    trim_end(t.as_str())
}

/// Whether `p` stands in `v` at index `i`.
fn matches_at(v: &Vec<char>, p: &Vec<char>, i: usize) -> (r: bool)
    requires
        i + p@.len() <= v@.len(),
    ensures
        r == text::occurs_at(v@, p@, i as int),
{
    let n: usize = v.len();
    let mut k: usize = 0;
    while k < p.len()
        invariant
            k <= p@.len(),
            n == v@.len(),
            i + p@.len() <= n,
            forall|j: int| 0 <= j < k ==> v@[i + j] == #[trigger] p@[j],
        decreases p.len() - k,
    {
        if v[i + k] != p[k] {
            assert(v@.subrange(i as int, i + p@.len())[k as int] != p@[k as int]);
            return false;
        }
        k = k + 1;
    }
    assert(v@.subrange(i as int, i + p@.len()) == p@);
    true
}

/// Whether `s` begins with `p`.
pub fn starts_with(s: &str, p: &str) -> (r: bool)
    ensures
        r == text::starts_with(s@, p@),
{
    let v = chars(s);
    let q = chars(p);
    if q.len() > v.len() {
        return false;
    }
    matches_at(&v, &q, 0)
}

/// Whether `s` ends with `p`.
pub fn ends_with(s: &str, p: &str) -> (r: bool)
    ensures
        r == text::ends_with(s@, p@),
{
    let v = chars(s);
    let q = chars(p);
    if q.len() > v.len() {
        return false;
    }
    matches_at(&v, &q, v.len() - q.len())
}

/// Whether `p` stands somewhere in `s`.
pub fn has_part(s: &str, p: &str) -> (r: bool)
    ensures
        r == text::has_part(s@, p@),
{
    let v = chars(s);
    let q = chars(p);
    if q.len() > v.len() {
        return false;
    }
    let mut i: usize = 0;
    while i <= v.len() - q.len()
        invariant
            v@ == s@,
            q@ == p@,
            q@.len() <= v@.len(),
            i <= v@.len() - q@.len() + 1,
            forall|j: int| 0 <= j < i ==> !text::occurs_at(v@, q@, j),
        decreases v.len() - i,
    {
        if matches_at(&v, &q, i) {
            return true;
        }
        if i == v.len() - q.len() {
            return false;
        }
        i = i + 1;
    }
    false
}

/// What follows the prefix `p` of `s`, where there is one.
pub fn strip_prefix(s: &str, p: &str) -> (r: Option<String>)
    ensures
        text::opt(r) == text::strip_prefix(s@, p@),
{
    if starts_with(s, p) {
        let v = chars(s);
        let q = chars(p);
        Some(slice(&v, q.len(), v.len()))
    } else {
        None
    }
}

/// What precedes the suffix `p` of `s`, where there is one.
pub fn strip_suffix(s: &str, p: &str) -> (r: Option<String>)
    ensures
        text::opt(r) == text::strip_suffix(s@, p@),
{
    if ends_with(s, p) {
        let v = chars(s);
        let q = chars(p);
        Some(slice(&v, 0, v.len() - q.len()))
    } else {
        None
    }
}

/// The split of a text by one more character.
proof fn split_push<T>(s: Seq<T>, sep: T, c: T)
    ensures
        text::split(s.push(c), sep) == (if c == sep {
            text::split(s, sep).push(Seq::<T>::empty())
        } else {
            text::split(s, sep).drop_last().push(text::split(s, sep).last().push(c))
        }),
{
    assert(s.push(c).drop_last() == s);
}

/// The pieces of `s` between separators.
pub fn split(s: &str, sep: char) -> (r: Vec<String>)
    ensures
        text::texts(r@) == text::split(s@, sep),
{
    let v = chars(s);
    let mut done: Vec<String> = Vec::new();
    let mut open = String::new();
    let mut i: usize = 0;
    assert(text::texts(done@).push(open@) == text::split(s@.subrange(0, 0), sep));
    while i < v.len()
        invariant
            i <= v@.len(),
            v@ == s@,
            text::texts(done@).push(open@) == text::split(s@.subrange(0, i as int), sep),
        decreases v.len() - i,
    {
        let c = v[i];
        let ghost was = text::texts(done@).push(open@);
        let ghost done0 = done@;
        let ghost open0 = open@;
        proof {
            split_push(s@.subrange(0, i as int), sep, c);
            assert(s@.subrange(0, i as int).push(c) == s@.subrange(0, i + 1));
            assert(was.drop_last() == text::texts(done0));
            assert(was.last() == open0);
        }
        if c == sep {
            done.push(open);
            open = String::new();
            assert(text::texts(done@) == was);
        } else {
            open.push(c);
            assert(text::texts(done@).push(open@) == was.drop_last().push(was.last().push(c)));
        }
        i = i + 1;
    }
    assert(s@.subrange(0, i as int) == s@);
    let ghost all = text::texts(done@).push(open@);
    done.push(open);
    assert(text::texts(done@) == all);
    done
}

/// The lines of `s`.
pub fn lines(s: &str) -> (r: Vec<String>)
    ensures
        text::texts(r@) == text::lines(s@),
{
    let pieces = split(s, '\n');
    let ghost all = text::split(s@, '\n');
    proof {
        text::split_has_a_piece(s@, '\n');
        assert(text::texts(pieces@).len() == all.len());
    }
    let last: usize = pieces.len() - 1;
    let mut r: Vec<String> = Vec::new();
    let mut i: usize = 0;
    while i < last
        invariant
            i <= last,
            last + 1 == pieces@.len(),
            text::texts(pieces@) == all,
            r@.len() == i,
            forall|j: int| 0 <= j < i ==> #[trigger] r@[j]@ == text::chop_cr(all[j]),
        decreases last - i,
    {
        assert(all[i as int] == pieces@[i as int]@);
        let v = chars(pieces[i].as_str());
        if v.len() > 0 && v[v.len() - 1] == '\r' {
            r.push(slice(&v, 0, v.len() - 1));
            assert(r@[i as int]@ == text::chop_cr(all[i as int]));
        } else {
            r.push(copy(pieces[i].as_str()));
        }
        i = i + 1;
    }
    assert(all.last() == pieces@[last as int]@);
    if pieces[last].as_str().is_empty() {
        assert(text::texts(r@) == text::lines(s@));
        r
    } else {
        r.push(copy(pieces[last].as_str()));
        assert(text::texts(r@) == text::lines(s@));
        r
    }
}

/// The words of `s`.
pub fn words(s: &str) -> (r: Vec<String>)
    ensures
        text::texts(r@) == text::words(s@),
{
    let v = chars(s);
    let mut done: Vec<String> = Vec::new();
    let mut open: Vec<char> = Vec::new();
    let mut i: usize = 0;
    assert(text::texts(done@) == Seq::<Seq<char>>::empty());
    while i < v.len()
        invariant
            i <= v@.len(),
            v@ == s@,
            text::word_state(s@.subrange(0, i as int)) == (text::texts(done@), open@),
        decreases v.len() - i,
    {
        let c = v[i];
        let ghost done0 = done@;
        let ghost open0 = open@;
        assert(s@.subrange(0, i + 1).drop_last() == s@.subrange(0, i as int));
        if !is_white(c) {
            open.push(c);
        } else if open.len() > 0 {
            done.push(slice(&open, 0, open.len()));
            open = Vec::new();
            assert(open0.subrange(0, open0.len() as int) == open0);
            assert(text::texts(done@) == text::texts(done0).push(open0));
        }
        i = i + 1;
    }
    assert(s@.subrange(0, i as int) == s@);
    if open.len() > 0 {
        let ghost done0 = done@;
        done.push(slice(&open, 0, open.len()));
        assert(open@.subrange(0, open@.len() as int) == open@);
        assert(text::texts(done@) == text::texts(done0).push(open@));
    }
    done
}

/// The strings one after the other with `sep` between them.
pub fn join(parts: &Vec<String>, sep: &str) -> (r: String)
    ensures
        r@ == text::join(text::texts(parts@), sep@),
{
    let mut r = String::new();
    let mut i: usize = 0;
    let ghost all = text::texts(parts@);
    while i < parts.len()
        invariant
            i <= parts@.len(),
            all == text::texts(parts@),
            r@ == text::join(all.subrange(0, i as int), sep@),
        decreases parts.len() - i,
    {
        let ghost next = all.subrange(0, i + 1);
        assert(next.drop_last() == all.subrange(0, i as int));
        if i > 0 {
            r.append(sep);
        }
        r.append(parts[i].as_str());
        assert(r@ == text::join(next, sep@));
        i = i + 1;
    }
    assert(all.subrange(0, i as int) == all);
    r
}

/// The digit character for `d`.
fn digit(d: u64) -> (r: char)
    requires
        d < 10,
    ensures
        r == text::digit(d as nat),
{
    (48 + d as u8) as char
}

/// The decimal numeral of `n`.
pub fn decimal(n: u64) -> (r: String)
    ensures
        r@ == text::decimal(n as nat),
    decreases n,
{
    if n < 10 {
        let mut r = String::new();
        r.push(digit(n));
        assert(r@ == seq![text::digit(n as nat)]);
        r
    } else {
        let mut r = decimal(n / 10);
        r.push(digit(n % 10));
        r
    }
}

/// The decimal numeral of a possibly negative `n`.
pub fn signed_decimal(n: i64) -> (r: String)
    ensures
        r@ == text::signed_decimal(n as int),
{
    if n < 0 {
        let m: u64 = if n == i64::MIN { 0x8000_0000_0000_0000 } else { (-n) as u64 };
        let mut r = String::new();
        r.push('-');
        let d = decimal(m);
        r.append(d.as_str());
        assert(r@ == seq!['-'] + d@);
        r
    } else {
        decimal(n as u64)
    }
}

/// The value of `c` as a digit of the base.
pub fn digit_value(c: char, base: u64) -> (r: Option<u64>)
    requires
        base <= 16,
    ensures
        match r {
            Some(v) => text::digit_value(c, base as nat) == Some(v as nat),
            None => text::digit_value(c, base as nat) is None,
        },
{
    let u = c as u32;
    let v: u32 = if '0' <= c && c <= '9' {
        u - 48
    } else if 'a' <= c && c <= 'f' {
        u - 87
    } else if 'A' <= c && c <= 'F' {
        u - 55
    } else {
        16
    };
    if (v as u64) < base {
        Some(v as u64)
    } else {
        None
    }
}

/// A longer numeral writes a number at least as large.
proof fn numeral_value_grows(s: Seq<char>, base: nat, i: int)
    requires
        0 <= i <= s.len(),
        base >= 1,
    ensures
        text::numeral_value(s.subrange(0, i), base) <= text::numeral_value(s, base),
    decreases s.len(),
{
    if i < s.len() {
        numeral_value_grows(s.drop_last(), base, i);
        assert(s.drop_last().subrange(0, i) == s.subrange(0, i));
        let a = text::numeral_value(s.drop_last(), base);
        assert(a <= a * base) by (nonlinear_arith)
            requires
                base >= 1,
        ;
    } else {
        assert(s.subrange(0, i) == s);
    }
}

/// The unsigned number of at most `max` that `s` writes in the base.
pub fn parse_number(s: &str, base: u64, max: u64) -> (r: Option<u64>)
    requires
        2 <= base <= 16,
    ensures
        match r {
            Some(v) => text::parse_number(s@, base as nat, max as nat) == Some(v as nat),
            None => text::parse_number(s@, base as nat, max as nat) is None,
        },
{
    let v = chars(s);
    let start: usize = if v.len() > 0 && v[0] == '+' { 1 } else { 0 };
    let ghost d = text::unsigned_part(s@);
    assert(d == v@.subrange(start as int, v@.len() as int));
    if start == v.len() {
        return None;
    }
    let mut n: u64 = 0;
    let mut i: usize = start;
    while i < v.len()
        invariant
            start <= i <= v@.len(),
            2 <= base <= 16,
            d == text::unsigned_part(s@),
            d == v@.subrange(start as int, v@.len() as int),
            n == text::numeral_value(d.subrange(0, i - start), base as nat),
            n <= max,
            forall|j: int| 0 <= j < i - start ==> text::digit_value(#[trigger] d[j], base as nat) is Some,
        decreases v.len() - i,
    {
        let ghost k = i - start;
        assert(d[k] == v@[i as int]);
        match digit_value(v[i], base) {
            None => {
                assert(!text::all_digits(d, base as nat));
                return None;
            },
            Some(x) => {
                let ghost next = d.subrange(0, k + 1);
                assert(next.drop_last() == d.subrange(0, k));
                assert(next.last() == d[k]);
                proof {
                    numeral_value_grows(d, base as nat, k + 1);
                    assert(n * base <= 0xffff_ffff_ffff_ffff * 16) by (nonlinear_arith)
                        requires
                            n <= 0xffff_ffff_ffff_ffff,
                            2 <= base <= 16,
                    ;
                }
                let wide: u128 = (n as u128) * (base as u128) + (x as u128);
                assert(wide == text::numeral_value(next, base as nat));
                if wide > max as u128 {
                    return None;
                }
                n = wide as u64;
            },
        }
        i = i + 1;
    }
    assert(d.subrange(0, i - start) == d);
    Some(n)
}

/// Whether `c` is an ASCII letter or digit.
pub fn is_alnum(c: char) -> (r: bool)
    ensures
        r == text::is_alnum(c),
{
    ('0' <= c && c <= '9') || ('a' <= c && c <= 'z') || ('A' <= c && c <= 'Z')
}

/// `c` with an ASCII capital made small.
pub fn lower_char(c: char) -> (r: char)
    ensures
        r == text::lower_char(c),
{
    if 'A' <= c && c <= 'Z' {
        ((c as u8) + 32) as char
    } else {
        c
    }
}

/// The string with its ASCII capitals made small.
pub fn ascii_lower(s: &str) -> (r: String)
    ensures
        r@ == text::ascii_lower(s@),
{
    let v = chars(s);
    let mut r = String::new();
    let mut i: usize = 0;
    while i < v.len()
        invariant
            i <= v@.len(),
            v@ == s@,
            r@.len() == i,
            forall|j: int| 0 <= j < i ==> #[trigger] r@[j] == text::lower_char(s@[j]),
        decreases v.len() - i,
    {
        r.push(lower_char(v[i]));
        i = i + 1;
    }
    assert(r@ == text::ascii_lower(s@));
    r
}

/// Whether the list holds `w`.
pub fn listed(v: &Vec<String>, w: &str) -> (r: bool)
    ensures
        r == text::listed(v@, w@),
{
    let mut i: usize = 0;
    while i < v.len()
        invariant
            i <= v@.len(),
            forall|j: int| 0 <= j < i ==> #[trigger] v@[j]@ != w@,
        decreases v.len() - i,
    {
        if same(v[i].as_str(), w) {
            return true;
        }
        i = i + 1;
    }
    false
}

/// A copy of a list of strings.
pub fn copy_all(v: &Vec<String>) -> (r: Vec<String>)
    ensures
        text::texts(r@) == text::texts(v@),
{
    let mut r: Vec<String> = Vec::new();
    let mut i: usize = 0;
    while i < v.len()
        invariant
            i <= v@.len(),
            r@.len() == i,
            forall|j: int| 0 <= j < i ==> #[trigger] r@[j]@ == v@[j]@,
        decreases v.len() - i,
    {
        r.push(copy(v[i].as_str()));
        i = i + 1;
    }
    assert(text::texts(r@) == text::texts(v@));
    r
}

/// What `String::from_utf8_lossy` makes of the bytes: the text they encode, with
/// U+FFFD in place of what is not UTF-8.
pub uninterp spec fn lossy_text(bytes: Seq<u8>) -> Seq<char>;

/// Calls `String::from_utf8_lossy`. The result depends on the bytes alone, and of
/// bytes that are UTF-8 it is the text they encode.
#[verifier::external_body]
pub(crate) fn from_utf8_lossy(bytes: &[u8]) -> (r: String)
    ensures
        r@ == lossy_text(bytes@),
        vstd::utf8::valid_utf8(bytes@) ==> text::bytes(r@) == bytes@,
{
    String::from_utf8_lossy(bytes).into_owned()
}

/// A copy of the bytes from `a` up to but not including `b`.
pub fn slice_bytes(v: &[u8], a: usize, b: usize) -> (r: Vec<u8>)
    requires
        a <= b <= v@.len(),
    ensures
        r@ == v@.subrange(a as int, b as int),
{
    let mut r: Vec<u8> = Vec::new();
    let mut i: usize = a;
    while i < b
        invariant
            a <= i <= b <= v@.len(),
            r@ == v@.subrange(a as int, i as int),
        decreases b - i,
    {
        r.push(v[i]);
        i = i + 1;
        assert(r@ == v@.subrange(a as int, i as int));
    }
    r
}

/// A copy of the bytes.
pub fn copy_bytes(v: &Vec<u8>) -> (r: Vec<u8>)
    ensures
        r@ == v@,
{
    let r = slice_bytes(v.as_slice(), 0, v.len());
    assert(r@ == v@);
    r
}

/// The pieces of the bytes between separators.
pub fn split_bytes(s: &[u8], sep: u8) -> (r: Vec<Vec<u8>>)
    ensures
        text::views(r@) == text::split(s@, sep),
{
    let mut done: Vec<Vec<u8>> = Vec::new();
    let mut open: Vec<u8> = Vec::new();
    let mut i: usize = 0;
    assert(text::views(done@).push(open@) == text::split(s@.subrange(0, 0), sep));
    while i < s.len()
        invariant
            i <= s@.len(),
            text::views(done@).push(open@) == text::split(s@.subrange(0, i as int), sep),
        decreases s.len() - i,
    {
        let c = s[i];
        let ghost was = text::views(done@).push(open@);
        let ghost done0 = done@;
        let ghost open0 = open@;
        proof {
            split_push(s@.subrange(0, i as int), sep, c);
            assert(s@.subrange(0, i as int).push(c) == s@.subrange(0, i + 1));
            assert(was.drop_last() == text::views(done0));
            assert(was.last() == open0);
        }
        if c == sep {
            done.push(open);
            open = Vec::new();
            assert(text::views(done@) == was);
        } else {
            open.push(c);
            assert(text::views(done@).push(open@) == was.drop_last().push(was.last().push(c)));
        }
        i = i + 1;
    }
    assert(s@.subrange(0, i as int) == s@);
    let ghost all = text::views(done@).push(open@);
    done.push(open);
    assert(text::views(done@) == all);
    done
}

/// Whether `p` stands in the bytes at index `i`.
pub fn bytes_at(v: &[u8], p: &[u8], i: usize) -> (r: bool)
    requires
        i + p@.len() <= v@.len(),
    ensures
        r == text::occurs_at(v@, p@, i as int),
{
    let n: usize = v.len();
    let mut k: usize = 0;
    while k < p.len()
        invariant
            k <= p@.len(),
            n == v@.len(),
            i + p@.len() <= n,
            forall|j: int| 0 <= j < k ==> v@[i + j] == #[trigger] p@[j],
        decreases p.len() - k,
    {
        if v[i + k] != p[k] {
            assert(v@.subrange(i as int, i + p@.len())[k as int] != p@[k as int]);
            return false;
        }
        k = k + 1;
    }
    assert(v@.subrange(i as int, i + p@.len()) == p@);
    true
}

/// Whether the bytes begin with `p`.
pub fn bytes_start_with(v: &[u8], p: &[u8]) -> (r: bool)
    ensures
        r == text::starts_with(v@, p@),
{
    p.len() <= v.len() && bytes_at(v, p, 0)
}

/// Whether `p` stands somewhere in the bytes.
pub fn bytes_have_part(v: &[u8], p: &[u8]) -> (r: bool)
    ensures
        r == text::has_part(v@, p@),
{
    if p.len() > v.len() {
        return false;
    }
    let last: usize = v.len() - p.len();
    let mut i: usize = 0;
    while i <= last
        invariant
            last == v@.len() - p@.len(),
            i <= last + 1,
            forall|j: int| 0 <= j < i ==> !text::occurs_at(v@, p@, j),
        decreases last + 1 - i,
    {
        if bytes_at(v, p, i) {
            return true;
        }
        if i == last {
            return false;
        }
        i = i + 1;
    }
    false
}

/// `a` followed by `b`.
pub fn cat(a: &str, b: &str) -> (r: String)
    ensures
        r@ == a@ + b@,
{
    let mut r = copy(a);
    r.append(b);
    r
}

/// `a` followed by `b` and `c`.
pub fn cat3(a: &str, b: &str, c: &str) -> (r: String)
    ensures
        r@ == a@ + b@ + c@,
{
    let mut r = copy(a);
    r.append(b);
    r.append(c);
    r
}

/// The string with `with` in place of every `c`.
pub fn replace_char(s: &str, c: char, with: &str) -> (r: String)
    ensures
        r@ == text::replace_char(s@, c, with@),
{
    let v = chars(s);
    let mut r = String::new();
    let mut i: usize = 0;
    while i < v.len()
        invariant
            i <= v@.len(),
            v@ == s@,
            r@ == text::replace_char(s@.subrange(0, i as int), c, with@),
        decreases v.len() - i,
    {
        assert(s@.subrange(0, i + 1).drop_last() == s@.subrange(0, i as int));
        let ghost was = r@;
        if v[i] == c {
            r.append(with);
        } else {
            r.push(v[i]);
            assert(r@ =~= was + seq![v@[i as int]]);
        }
        i = i + 1;
    }
    assert(s@.subrange(0, i as int) == s@);
    r
}

/// Calls `std::str::from_utf8`, which accepts exactly the bytes that are UTF-8.
#[verifier::external_body]
pub(crate) fn is_utf8(bytes: &[u8]) -> (r: bool)
    ensures
        r == vstd::utf8::valid_utf8(bytes@),
{
    std::str::from_utf8(bytes).is_ok()
}

/// What `str::to_lowercase` makes of the text.
pub uninterp spec fn lowercase_text(s: Seq<char>) -> Seq<char>;

/// Calls `str::to_lowercase`. The result depends on the text alone, and of an ASCII text
/// it is the text with its capitals made small.
#[verifier::external_body]
pub(crate) fn to_lowercase(s: &str) -> (r: String)
    ensures
        r@ == lowercase_text(s@),
        vstd::utf8::is_ascii_chars(s@) ==> r@ == text::ascii_lower(s@),
{
    s.to_lowercase()
}

/// What `str::to_uppercase` makes of the text.
pub uninterp spec fn uppercase_text(s: Seq<char>) -> Seq<char>;

/// Calls `str::to_uppercase`. The result depends on the text alone, and of an ASCII text
/// it is the text with its small letters made capital.
#[verifier::external_body]
pub(crate) fn to_uppercase(s: &str) -> (r: String)
    ensures
        r@ == uppercase_text(s@),
        vstd::utf8::is_ascii_chars(s@) ==> r@ == text::ascii_upper(s@),
{
    s.to_uppercase()
}

} // verus!
