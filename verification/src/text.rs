//! Text as sequences of characters: comparing, searching, cutting and building
//! strings, and writing numbers.

use vstd::prelude::*;
use vstd::string::*;

verus! {

/// `String::push` appends one character at the end.
pub assume_specification[ String::push ](s: &mut String, c: char)
    ensures
        final(s)@ == old(s)@.push(c),
;

/// The lower-case form of a text that is not all ASCII, as `str::to_lowercase`
/// gives it.
pub uninterp spec fn unicode_lowercase(s: Seq<char>) -> Seq<char>;

/// `str::to_lowercase` gives the lower-case form of the text. In an ASCII text
/// the letters `A` to `Z` become `a` to `z` and nothing else changes; any other
/// text follows Unicode's tables, which are not described further: not even that
/// the lower-case form of such a text is its own lower-case form.
pub assume_specification[ str::to_lowercase ](s: &str) -> (r: String)
    ensures
        r@ == if is_ascii_text(s@) {
            ascii_lowercase(s@)
        } else {
            unicode_lowercase(s@)
        },
;

/// The lower-case form of a text.
pub open spec fn lowercase(s: Seq<char>) -> Seq<char> {
    if is_ascii_text(s) {
        ascii_lowercase(s)
    } else {
        unicode_lowercase(s)
    }
}

/// Every character is ASCII.
pub open spec fn is_ascii_text(s: Seq<char>) -> bool {
    forall|i: int| 0 <= i < s.len() ==> (#[trigger] s[i] as u32) < 128
}

/// `A` to `Z` become `a` to `z`; every other character stays.
pub open spec fn ascii_lower(c: char) -> char {
    if 'A' <= c && c <= 'Z' {
        ((c as u32) + 32) as char
    } else {
        c
    }
}

/// Each character with `A` to `Z` replaced by `a` to `z`.
pub open spec fn ascii_lowercase(s: Seq<char>) -> Seq<char> {
    Seq::new(s.len(), |i: int| ascii_lower(s[i]))
}

/// `needle` stands in `s` from position `i` on.
pub open spec fn occurs_at(s: Seq<char>, needle: Seq<char>, i: int) -> bool {
    0 <= i && i + needle.len() <= s.len() && s.subrange(i, i + needle.len()) == needle
}

/// `needle` stands somewhere in `s`.
pub open spec fn occurs(s: Seq<char>, needle: Seq<char>) -> bool {
    exists|i: int| occurs_at(s, needle, i)
}

/// Unicode's `White_Space` property.
pub open spec fn white_space(c: char) -> bool {
    let n = c as u32;
    ||| 0x09 <= n <= 0x0d
    ||| n == 0x20 || n == 0x85 || n == 0xa0 || n == 0x1680
    ||| 0x2000 <= n <= 0x200a
    ||| n == 0x2028 || n == 0x2029 || n == 0x202f || n == 0x205f || n == 0x3000
}

/// The text without its leading white space.
pub open spec fn trimmed_start(s: Seq<char>) -> Seq<char>
    decreases s.len(),
{
    if s.len() > 0 && white_space(s[0]) {
        trimmed_start(s.skip(1))
    } else {
        s
    }
}

/// The text without its trailing white space.
pub open spec fn trimmed_end(s: Seq<char>) -> Seq<char>
    decreases s.len(),
{
    if s.len() > 0 && white_space(s.last()) {
        trimmed_end(s.drop_last())
    } else {
        s
    }
}

/// The text without leading and trailing white space.
pub open spec fn trimmed(s: Seq<char>) -> Seq<char> {
    trimmed_end(trimmed_start(s))
}

/// The first `n` characters, or all of them where there are fewer.
pub open spec fn first_chars(s: Seq<char>, n: nat) -> Seq<char> {
    if s.len() <= n {
        s
    } else {
        s.take(n as int)
    }
}

/// The text, cut to its first `n` characters.
pub fn take_chars(s: &str, n: usize) -> (r: String)
    ensures
        r@ == first_chars(s@, n as nat),
{
    let len = s.unicode_len();
    if len <= n {
        s.to_owned()
    } else {
        s.substring_char(0, n).to_owned()
    }
}

/// The text as a vector of characters.
pub fn chars_of(s: &str) -> (v: Vec<char>)
    ensures
        v@ == s@,
{
    let mut v: Vec<char> = Vec::new();
    for c in it: s.chars()
        invariant
            v@.len() == it.index(),
            it.seq() == s@,
            forall|j: int| 0 <= j < v@.len() ==> v@[j] == it.seq()[j],
    {
        v.push(c);
    }
    assert(v@ =~= s@);
    v
}

/// The characters from `from` up to `to` as a text.
pub fn string_of(v: &Vec<char>, from: usize, to: usize) -> (r: String)
    requires
        from <= to <= v@.len(),
    ensures
        r@ == v@.subrange(from as int, to as int),
{
    let mut r = String::new();
    let mut i: usize = from;
    while i < to
        invariant
            from <= i <= to <= v@.len(),
            r@ == v@.subrange(from as int, i as int),
        decreases to - i,
    {
        r.push(v[i]);
        i += 1;
        assert(r@ =~= v@.subrange(from as int, i as int));
    }
    r
}

/// Whether two texts hold the same characters.
pub fn same(a: &str, b: &str) -> (r: bool)
    ensures
        r == (a@ == b@),
{
    let x = chars_of(a);
    let y = chars_of(b);
    if x.len() != y.len() {
        return false;
    }
    let mut i: usize = 0;
    while i < x.len()
        invariant
            i <= x@.len() == y@.len(),
            x@ == a@,
            y@ == b@,
            forall|j: int| 0 <= j < i ==> x@[j] == y@[j],
        decreases x@.len() - i,
    {
        if x[i] != y[i] {
            assert(a@[i as int] != b@[i as int]);
            return false;
        }
        i += 1;
    }
    assert(a@ =~= b@);
    true
}

/// Whether `needle` stands in `s` from position `at` on.
fn matches_at(s: &Vec<char>, needle: &Vec<char>, at: usize) -> (r: bool)
    requires
        at + needle@.len() <= s@.len(),
    ensures
        r == occurs_at(s@, needle@, at as int),
{
    let len: usize = s.len();
    let mut j: usize = 0;
    while j < needle.len()
        invariant
            j <= needle@.len(),
            at + needle@.len() <= s@.len(),
            len == s@.len(),
            forall|k: int| 0 <= k < j ==> s@[at + k] == needle@[k],
        decreases needle@.len() - j,
    {
        if s[at + j] != needle[j] {
            assert(s@.subrange(at as int, at + needle@.len())[j as int] != needle@[j as int]);
            return false;
        }
        j += 1;
    }
    assert(s@.subrange(at as int, at + needle@.len()) =~= needle@);
    true
}

/// The first position at which `needle` stands in `s`.
pub open spec fn first_occurrence(s: Seq<char>, needle: Seq<char>, r: Option<usize>) -> bool {
    match r {
        Some(i) => occurs_at(s, needle, i as int) && forall|k: int|
            0 <= k < i ==> !occurs_at(s, needle, k),
        None => !occurs(s, needle),
    }
}

/// Finds the first position of `needle` in `s`, counted in characters.
pub fn find_in(s: &Vec<char>, needle: &Vec<char>, from: usize) -> (r: Option<usize>)
    requires
        from <= s@.len(),
    ensures
        match r {
            Some(i) => from <= i && occurs_at(s@, needle@, i as int) && forall|k: int|
                from <= k < i ==> !occurs_at(s@, needle@, k),
            None => forall|k: int| from <= k ==> !occurs_at(s@, needle@, k),
        },
{
    if needle.len() > s.len() {
        return None;
    }
    let last: usize = s.len() - needle.len();
    let mut i: usize = from;
    while i <= last
        invariant
            from <= i,
            last == s@.len() - needle@.len(),
            i <= s@.len() + 1,
            forall|k: int| from <= k < i ==> !occurs_at(s@, needle@, k),
        decreases s@.len() + 1 - i,
    {
        if matches_at(s, needle, i) {
            return Some(i);
        }
        if i == last {
            return None;
        }
        i += 1;
    }
    None
}

/// Finds the first position of `needle` in `s`, counted in characters.
pub fn find(s: &str, needle: &str) -> (r: Option<usize>)
    ensures
        first_occurrence(s@, needle@, r),
{
    let a = chars_of(s);
    let b = chars_of(needle);
    find_in(&a, &b, 0)
}

/// Whether `needle` stands somewhere in `s`.
pub fn contains(s: &str, needle: &str) -> (r: bool)
    ensures
        r == occurs(s@, needle@),
{
    match find(s, needle) {
        Some(_) => true,
        None => false,
    }
}

/// Whether `s` begins with `p`.
pub fn starts_with(s: &str, p: &str) -> (r: bool)
    ensures
        r == p@.is_prefix_of(s@),
{
    let a = chars_of(s);
    let b = chars_of(p);
    if b.len() > a.len() {
        return false;
    }
    let r = matches_at(&a, &b, 0);
    proof {
        assert(s@.subrange(0, 0int + p@.len()) =~= s@.subrange(0, p@.len() as int));
        assert(r == (p@ =~= s@.subrange(0, p@.len() as int)));
    }
    r
}

/// Whether `s` ends with `p`.
pub fn ends_with(s: &str, p: &str) -> (r: bool)
    ensures
        r == p@.is_suffix_of(s@),
{
    let a = chars_of(s);
    let b = chars_of(p);
    if b.len() > a.len() {
        return false;
    }
    let at: usize = a.len() - b.len();
    let r = matches_at(&a, &b, at);
    proof {
        assert(s@.subrange(at as int, at + p@.len()) =~= s@.subrange(
            s@.len() - p@.len(),
            s@.len() as int,
        ));
    }
    r
}

/// One character with `A` to `Z` replaced by `a` to `z`.
pub fn lower_ascii_char(c: char) -> (r: char)
    ensures
        r == ascii_lower(c),
{
    if 'A' <= c && c <= 'Z' {
        let n: u8 = c as u8;
        (n + 32) as char
    } else {
        c
    }
}

/// Whether two texts agree apart from the case of ASCII letters.
pub fn same_ignoring_ascii_case(a: &str, b: &str) -> (r: bool)
    ensures
        r == (ascii_lowercase(a@) == ascii_lowercase(b@)),
{
    let x = chars_of(a);
    let y = chars_of(b);
    if x.len() != y.len() {
        assert(ascii_lowercase(a@).len() != ascii_lowercase(b@).len());
        return false;
    }
    let mut i: usize = 0;
    while i < x.len()
        invariant
            i <= x@.len() == y@.len(),
            x@ == a@,
            y@ == b@,
            forall|j: int| 0 <= j < i ==> ascii_lower(x@[j]) == ascii_lower(y@[j]),
        decreases x@.len() - i,
    {
        if lower_ascii_char(x[i]) != lower_ascii_char(y[i]) {
            assert(ascii_lowercase(a@)[i as int] != ascii_lowercase(b@)[i as int]);
            return false;
        }
        i += 1;
    }
    assert(ascii_lowercase(a@) =~= ascii_lowercase(b@));
    true
}

/// Whether a character is white space.
pub fn is_white_space(c: char) -> (r: bool)
    ensures
        r == white_space(c),
{
    let n: u32 = c as u32;
    (0x09 <= n && n <= 0x0d) || n == 0x20 || n == 0x85 || n == 0xa0 || n == 0x1680 || (0x2000 <= n
        && n <= 0x200a) || n == 0x2028 || n == 0x2029 || n == 0x202f || n == 0x205f || n == 0x3000
}

/// The text without leading and trailing white space.
pub fn trim(s: &str) -> (r: String)
    ensures
        r@ == trimmed(s@),
{
    let v = chars_of(s);
    let mut from: usize = 0;
    assert(s@.skip(0) =~= s@);
    while from < v.len() && is_white_space(v[from])
        invariant
            from <= v@.len(),
            v@ == s@,
            trimmed_start(s@) == trimmed_start(s@.skip(from as int)),
        decreases v@.len() - from,
    {
        assert(s@.skip(from as int)[0] == s@[from as int]);
        assert(s@.skip(from as int).skip(1) =~= s@.skip(from + 1));
        from += 1;
    }
    let ghost t = s@.skip(from as int);
    assert(trimmed_start(s@) == t) by {
        if t.len() > 0 {
            assert(t[0] == s@[from as int]);
        }
    }
    let mut to: usize = v.len();
    assert(t.take(t.len() as int) =~= t);
    while from < to && is_white_space(v[to - 1])
        invariant
            from <= to <= v@.len(),
            v@ == s@,
            t == s@.skip(from as int),
            trimmed_end(t) == trimmed_end(t.take(to - from)),
        decreases to - from,
    {
        let ghost u = t.take(to - from);
        assert(u.last() == s@[to - 1]);
        assert(u.drop_last() =~= t.take(to - 1 - from));
        to -= 1;
    }
    assert(trimmed_end(t) == t.take(to - from)) by {
        if to > from {
            assert(t.take(to - from).last() == s@[to - 1]);
        }
    }
    assert(t.take(to - from) =~= v@.subrange(from as int, to as int));
    string_of(&v, from, to)
}

/// The text without any `c` at its end.
pub open spec fn without_trailing(s: Seq<char>, c: char) -> Seq<char>
    decreases s.len(),
{
    if s.len() > 0 && s.last() == c {
        without_trailing(s.drop_last(), c)
    } else {
        s
    }
}

/// The text without any `c` at its start.
pub open spec fn without_leading(s: Seq<char>, c: char) -> Seq<char>
    decreases s.len(),
{
    if s.len() > 0 && s[0] == c {
        without_leading(s.skip(1), c)
    } else {
        s
    }
}

/// The text without any `p` at its end.
pub open spec fn without_suffix(s: Seq<char>, p: Seq<char>) -> Seq<char>
    decreases s.len(),
{
    if p.len() > 0 && p.is_suffix_of(s) {
        without_suffix(s.take(s.len() - p.len()), p)
    } else {
        s
    }
}

/// The text without any of `p` at its beginning.
pub open spec fn without_prefix(s: Seq<char>, p: Seq<char>) -> Seq<char>
    decreases s.len(),
{
    if p.len() > 0 && p.is_prefix_of(s) {
        without_prefix(s.skip(p.len() as int), p)
    } else {
        s
    }
}

/// The text without any of `p` at its beginning.
pub fn trim_start_text(s: &str, p: &str) -> (r: String)
    ensures
        r@ == without_prefix(s@, p@),
    decreases s@.len(),
{
    let m: usize = p.unicode_len();
    if m > 0 && starts_with(s, p) {
        let n: usize = s.unicode_len();
        let rest = s.substring_char(m, n);
        assert(rest@ =~= s@.skip(p@.len() as int));
        trim_start_text(rest, p)
    } else {
        s.to_owned()
    }
}

/// The text without any `c` at its end.
pub fn trim_end_char(s: &str, c: char) -> (r: String)
    ensures
        r@ == without_trailing(s@, c),
{
    let v = chars_of(s);
    let mut to: usize = v.len();
    assert(s@.take(to as int) =~= s@);
    while to > 0 && v[to - 1] == c
        invariant
            to <= v@.len(),
            v@ == s@,
            without_trailing(s@, c) == without_trailing(s@.take(to as int), c),
        decreases to,
    {
        assert(s@.take(to as int).last() == s@[to - 1]);
        assert(s@.take(to as int).drop_last() =~= s@.take(to - 1));
        to -= 1;
    }
    proof {
        if to > 0 {
            assert(s@.take(to as int).last() == s@[to - 1]);
        }
        assert(v@.subrange(0, to as int) =~= s@.take(to as int));
    }
    string_of(&v, 0, to)
}

/// The text without any `c` at its start.
pub fn trim_start_char(s: &str, c: char) -> (r: String)
    ensures
        r@ == without_leading(s@, c),
{
    let v = chars_of(s);
    let mut from: usize = 0;
    assert(s@.skip(0) =~= s@);
    while from < v.len() && v[from] == c
        invariant
            from <= v@.len(),
            v@ == s@,
            without_leading(s@, c) == without_leading(s@.skip(from as int), c),
        decreases v@.len() - from,
    {
        assert(s@.skip(from as int)[0] == s@[from as int]);
        assert(s@.skip(from as int).skip(1) =~= s@.skip(from + 1));
        from += 1;
    }
    proof {
        if from < v@.len() {
            assert(s@.skip(from as int)[0] == s@[from as int]);
        }
        assert(v@.subrange(from as int, v@.len() as int) =~= s@.skip(from as int));
    }
    string_of(&v, from, v.len())
}

/// The text without any `p` at its end.
pub fn trim_end_text(s: &str, p: &str) -> (r: String)
    ensures
        r@ == without_suffix(s@, p@),
    decreases s@.len(),
{
    let m: usize = p.unicode_len();
    if m > 0 && ends_with(s, p) {
        let n: usize = s.unicode_len();
        let rest = s.substring_char(0, n - m);
        assert(rest@ =~= s@.take(s@.len() - p@.len()));
        trim_end_text(rest, p)
    } else {
        s.to_owned()
    }
}

/// Two texts in a row.
pub fn concat(a: &str, b: &str) -> (r: String)
    ensures
        r@ == a@ + b@,
{
    let mut r = a.to_owned();
    r.append(b);
    r
}

/// Three texts in a row.
pub fn concat3(a: &str, b: &str, c: &str) -> (r: String)
    ensures
        r@ == a@ + b@ + c@,
{
    let mut r = a.to_owned();
    r.append(b);
    r.append(c);
    r
}

/// The contents of an optional text.
pub open spec fn opt_view(o: Option<String>) -> Option<Seq<char>> {
    match o {
        Some(s) => Some(s@),
        None => None,
    }
}

/// A copy of an optional text.
pub fn clone_opt(o: &Option<String>) -> (r: Option<String>)
    ensures
        opt_view(r) == opt_view(*o),
{
    match o {
        Some(s) => Some(s.clone()),
        None => None,
    }
}

/// The contents of a list of texts.
pub open spec fn text_views(s: Seq<String>) -> Seq<Seq<char>> {
    Seq::new(s.len(), |i: int| s[i]@)
}

/// The position of the first `c`, or the length where there is none.
pub open spec fn first_index(s: Seq<char>, c: char) -> int
    decreases s.len(),
{
    if s.len() == 0 {
        0
    } else if s[0] == c {
        0
    } else {
        1 + first_index(s.skip(1), c)
    }
}

/// Where the first `c` stands, nothing before it is `c`.
pub proof fn lemma_first_index(s: Seq<char>, c: char)
    ensures
        0 <= first_index(s, c) <= s.len(),
        forall|i: int| 0 <= i < first_index(s, c) ==> s[i] != c,
        first_index(s, c) < s.len() ==> s[first_index(s, c)] == c,
    decreases s.len(),
{
    if s.len() > 0 && s[0] != c {
        lemma_first_index(s.skip(1), c);
        assert forall|i: int| 0 <= i < first_index(s, c) implies s[i] != c by {
            if i > 0 {
                assert(s[i] == s.skip(1)[i - 1]);
            }
        }
    }
}

/// The position from which on the first `c` stands, or the length.
pub fn index_from(v: &Vec<char>, c: char, from: usize) -> (r: usize)
    requires
        from <= v@.len(),
    ensures
        r == from + first_index(v@.skip(from as int), c),
        from <= r <= v@.len(),
        r < v@.len() ==> v@[r as int] == c,
{
    let mut i: usize = from;
    while i < v.len() && v[i] != c
        invariant
            from <= i <= v@.len(),
            i + first_index(v@.skip(i as int), c) == from + first_index(v@.skip(from as int), c),
        decreases v@.len() - i,
    {
        assert(v@.skip(i as int).skip(1) =~= v@.skip(i + 1));
        assert(v@.skip(i as int)[0] == v@[i as int]);
        i += 1;
    }
    proof {
        if i < v@.len() {
            assert(v@.skip(i as int)[0] == v@[i as int]);
        }
    }
    i
}

/// One digit of a number written to a base of at most 16, in lower case.
pub open spec fn digit_char(d: int) -> char {
    if d < 10 {
        (d + 48) as char
    } else {
        (d + 87) as char
    }
}

/// A number written to `base`, most significant digit first.
pub open spec fn digits(n: nat, base: nat) -> Seq<char>
    decreases n,
{
    if n < base || base < 2 {
        seq![digit_char(n as int)]
    } else {
        proof {
            assert(n / base < n) by (nonlinear_arith)
                requires
                    n >= base,
                    base >= 2,
            ;
        }
        digits(n / base, base).push(digit_char((n % base) as int))
    }
}

/// A natural number in decimal.
pub open spec fn decimal(n: nat) -> Seq<char> {
    digits(n, 10)
}

/// An integer in decimal, with a minus sign where it is negative.
pub open spec fn signed_decimal(n: int) -> Seq<char> {
    if n < 0 {
        seq!['-'] + decimal((-n) as nat)
    } else {
        decimal(n as nat)
    }
}

/// A text with as many zeros in front as reach `width`.
pub open spec fn zero_padded(s: Seq<char>, width: nat) -> Seq<char> {
    if s.len() >= width {
        s
    } else {
        Seq::new((width - s.len()) as nat, |i: int| '0') + s
    }
}

fn digit(d: u64) -> (r: char)
    requires
        d < 16,
    ensures
        r == digit_char(d as int),
{
    if d < 10 {
        ((d as u8) + 48) as char
    } else {
        ((d as u8) + 87) as char
    }
}

fn push_digits(r: &mut String, n: u64, base: u64)
    requires
        2 <= base <= 16,
    ensures
        final(r)@ == old(r)@ + digits(n as nat, base as nat),
    decreases n,
{
    if n < base {
        r.push(digit(n));
        assert(r@ =~= old(r)@ + digits(n as nat, base as nat));
    } else {
        assert(n / base < n) by (nonlinear_arith)
            requires
                2 <= base,
                n >= base,
        ;
        push_digits(r, n / base, base);
        r.push(digit(n % base));
        assert(r@ =~= old(r)@ + digits(n as nat, base as nat));
    }
}

/// A number in decimal.
pub fn decimal_string(n: u64) -> (r: String)
    ensures
        r@ == decimal(n as nat),
{
    let mut r = String::new();
    push_digits(&mut r, n, 10);
    assert(r@ =~= decimal(n as nat));
    r
}

/// A number in lower-case hexadecimal.
pub fn hex_string(n: u64) -> (r: String)
    ensures
        r@ == digits(n as nat, 16),
{
    let mut r = String::new();
    push_digits(&mut r, n, 16);
    assert(r@ =~= digits(n as nat, 16));
    r
}

/// An integer in decimal.
pub fn signed_string(n: i64) -> (r: String)
    ensures
        r@ == signed_decimal(n as int),
{
    if n < 0 {
        let mut r = String::new();
        r.push('-');
        let m: u64 = (-(n as i128)) as u64;
        push_digits(&mut r, m, 10);
        assert(r@ =~= signed_decimal(n as int));
        r
    } else {
        decimal_string(n as u64)
    }
}

/// A text with as many zeros in front as reach `width`.
pub fn zero_pad(s: &str, width: usize) -> (r: String)
    ensures
        r@ == zero_padded(s@, width as nat),
{
    let len: usize = s.unicode_len();
    let mut r = String::new();
    let mut i: usize = len;
    while i < width
        invariant
            len == s@.len(),
            len <= i,
            len <= width ==> i <= width,
            len > width ==> i == len,
            r@ == Seq::new((i - len) as nat, |k: int| '0'),
        decreases width - i,
    {
        r.push('0');
        i += 1;
        assert(r@ =~= Seq::new((i - len) as nat, |k: int| '0'));
    }
    r.append(s);
    assert(r@ =~= zero_padded(s@, width as nat));
    r
}

/// `a` to `z` become `A` to `Z`; every other character stays.
pub open spec fn ascii_upper(c: char) -> char {
    if 'a' <= c && c <= 'z' {
        ((c as u32) - 32) as char
    } else {
        c
    }
}

/// A number in upper-case hexadecimal with at least so many digits.
pub open spec fn upper_hex(n: nat, width: nat) -> Seq<char> {
    let s = zero_padded(digits(n, 16), width);
    Seq::new(s.len(), |i: int| ascii_upper(s[i]))
}

/// A number in upper-case hexadecimal with at least so many digits.
pub fn upper_hex_string(n: u64, width: usize) -> (r: String)
    ensures
        r@ == upper_hex(n as nat, width as nat),
{
    let s = zero_pad(hex_string(n).as_str(), width);
    let v = chars_of(s.as_str());
    let mut r = String::new();
    let mut i: usize = 0;
    while i < v.len()
        invariant
            i <= v@.len(),
            v@ == s@,
            r@ == Seq::new(i as nat, |k: int| ascii_upper(s@[k])),
        decreases v@.len() - i,
    {
        let c = v[i];
        if 'a' <= c && c <= 'z' {
            r.push(((c as u8) - 32) as char);
        } else {
            r.push(c);
        }
        i += 1;
        assert(r@ =~= Seq::new(i as nat, |k: int| ascii_upper(s@[k])));
    }
    assert(r@ =~= upper_hex(n as nat, width as nat));
    r
}

/// One character in UTF-16.
pub open spec fn utf16_units(c: char) -> Seq<u16> {
    let n = c as u32;
    if n < 0x10000 {
        seq![n as u16]
    } else {
        seq![(0xd800 + (n - 0x10000) / 0x400) as u16, (0xdc00 + (n - 0x10000) % 0x400) as u16]
    }
}

/// A text in UTF-16.
pub open spec fn utf16(s: Seq<char>) -> Seq<u16>
    decreases s.len(),
{
    if s.len() == 0 {
        Seq::empty()
    } else {
        utf16(s.drop_last()) + utf16_units(s.last())
    }
}

/// The text in UTF-16.
pub fn encode_utf16(s: &str) -> (r: Vec<u16>)
    ensures
        r@ == utf16(s@),
{
    let v = chars_of(s);
    let mut r: Vec<u16> = Vec::new();
    let mut i: usize = 0;
    assert(s@.take(0) =~= Seq::empty());
    while i < v.len()
        invariant
            i <= v@.len(),
            v@ == s@,
            r@ == utf16(s@.take(i as int)),
        decreases v@.len() - i,
    {
        let n: u32 = v[i] as u32;
        let ghost before = r@;
        if n < 0x10000 {
            r.push(n as u16);
        } else {
            let m: u32 = n - 0x10000;
            r.push((0xd800 + m / 0x400) as u16);
            r.push((0xdc00 + m % 0x400) as u16);
        }
        assert(r@ =~= before + utf16_units(v@[i as int]));
        assert(s@.take(i + 1).drop_last() =~= s@.take(i as int));
        i += 1;
    }
    assert(s@.take(i as int) =~= s@);
    r
}

/// A line without the carriage return at its end.
pub open spec fn without_cr(s: Seq<char>) -> Seq<char> {
    if s.len() > 0 && s.last() == '\r' {
        s.drop_last()
    } else {
        s
    }
}

/// The lines of a text. A line ends with a line feed, or a carriage return and a
/// line feed; the last one need not end.
pub open spec fn lines_of(s: Seq<char>) -> Seq<Seq<char>>
    decreases s.len(),
{
    let i = first_index(s, '\n');
    if s.len() == 0 {
        Seq::empty()
    } else if i < 0 || i >= s.len() {
        seq![s]
    } else {
        seq![without_cr(s.take(i))] + lines_of(s.skip(i + 1))
    }
}

/// The lines of a text.
pub fn lines(s: &str) -> (r: Vec<String>)
    ensures
        text_views(r@) == lines_of(s@),
{
    let v = chars_of(s);
    let n: usize = v.len();
    let mut r: Vec<String> = Vec::new();
    let mut at: usize = 0;
    assert(v@.skip(0) =~= s@);
    assert(text_views(r@) + lines_of(s@) =~= lines_of(s@));
    while at < n
        invariant
            at <= n == v@.len(),
            v@ == s@,
            text_views(r@) + lines_of(v@.skip(at as int)) == lines_of(s@),
        decreases n - at,
    {
        let ghost rest = v@.skip(at as int);
        let ghost before = text_views(r@);
        let end = index_from(&v, '\n', at);
        if end >= n {
            r.push(string_of(&v, at, n));
            proof {
                assert(v@.subrange(at as int, n as int) =~= rest);
                assert(text_views(r@) =~= before + seq![rest]);
            }
            return r;
        }
        let mut to: usize = end;
        if to > at && v[to - 1] == '\r' {
            to -= 1;
        }
        r.push(string_of(&v, at, to));
        proof {
            let line = rest.take(end - at);
            if end > at {
                assert(line.last() == v@[end - 1]);
            }
            assert(v@.subrange(at as int, to as int) =~= without_cr(line));
            assert(rest.skip(end - at + 1) =~= v@.skip(end + 1));
            assert(text_views(r@) =~= before.push(without_cr(line)));
            assert(before + (seq![without_cr(line)] + lines_of(v@.skip(end + 1))) =~= text_views(r@)
                + lines_of(v@.skip(end + 1)));
        }
        at = end + 1;
    }
    assert(v@.skip(at as int).len() == 0);
    assert(text_views(r@) =~= lines_of(s@));
    r
}

/// A text in lower case as far as ASCII goes.
pub fn lower_ascii(s: &str) -> (r: String)
    ensures
        r@ == ascii_lowercase(s@),
{
    let v = chars_of(s);
    let mut r = String::new();
    let mut i: usize = 0;
    while i < v.len()
        invariant
            i <= v@.len(),
            v@ == s@,
            r@ == ascii_lowercase(s@).take(i as int),
        decreases v@.len() - i,
    {
        r.push(lower_ascii_char(v[i]));
        i += 1;
        assert(r@ =~= ascii_lowercase(s@).take(i as int));
    }
    assert(r@ =~= ascii_lowercase(s@));
    r
}

/// The value of decimal digits; `None` where anything else stands there, or
/// nothing.
pub open spec fn digits_value(s: Seq<char>) -> Option<nat>
    decreases s.len(),
{
    if s.len() == 0 {
        None
    } else if !('0' <= s.last() && s.last() <= '9') {
        None
    } else if s.len() == 1 {
        Some((s.last() as nat - 48) as nat)
    } else {
        match digits_value(s.drop_last()) {
            Some(n) => Some((n * 10 + (s.last() as nat - 48)) as nat),
            None => None,
        }
    }
}

/// The value of a decimal number that may have a sign.
pub open spec fn signed_value(s: Seq<char>) -> Option<int> {
    if s.len() > 0 && s[0] == '-' {
        match digits_value(s.skip(1)) {
            Some(n) => Some(-(n as int)),
            None => None,
        }
    } else if s.len() > 0 && s[0] == '+' {
        match digits_value(s.skip(1)) {
            Some(n) => Some(n as int),
            None => None,
        }
    } else {
        match digits_value(s) {
            Some(n) => Some(n as int),
            None => None,
        }
    }
}

/// Reads a decimal number; `None` where it is none or too large.
pub fn parse_digits(v: &Vec<char>, from: usize, to: usize) -> (r: Option<u64>)
    requires
        from <= to <= v@.len(),
    ensures
        match digits_value(v@.subrange(from as int, to as int)) {
            Some(n) => if n <= u64::MAX {
                r == Some(n as u64)
            } else {
                r is None
            },
            None => r is None,
        },
{
    if from == to {
        return None;
    }
    let mut n: u64 = 0;
    let mut fits = true;
    let mut i: usize = from;
    while i < to
        invariant
            from <= i <= to <= v@.len(),
            from < to,
            i > from ==> digits_value(v@.subrange(from as int, i as int)) is Some,
            i > from && fits ==> digits_value(v@.subrange(from as int, i as int)) == Some(n as nat),
            !fits ==> i > from && digits_value(v@.subrange(from as int, i as int))->0 > u64::MAX,
            i == from ==> n == 0,
        decreases to - i,
    {
        let c = v[i];
        proof {
            let s = v@.subrange(from as int, i + 1);
            assert(s.last() == c);
            assert(s.drop_last() =~= v@.subrange(from as int, i as int));
        }
        if !('0' <= c && c <= '9') {
            proof {
                lemma_bad_digit(v@.subrange(from as int, to as int), i - from);
            }
            return None;
        }
        if fits {
            let d: u64 = (c as u32) as u64 - 48;
            match n.checked_mul(10) {
                Some(m) => match m.checked_add(d) {
                    Some(k) => {
                        n = k;
                    },
                    None => {
                        fits = false;
                    },
                },
                None => {
                    fits = false;
                },
            }
        }
        i += 1;
    }
    if fits {
        Some(n)
    } else {
        None
    }
}

proof fn lemma_bad_digit(s: Seq<char>, k: int)
    requires
        0 <= k < s.len(),
        !('0' <= s[k] && s[k] <= '9'),
    ensures
        digits_value(s) is None,
    decreases s.len(),
{
    if k < s.len() - 1 {
        lemma_bad_digit(s.drop_last(), k);
    }
}

/// Reads a decimal number that may have a sign; `None` where it is none or does
/// not fit.
pub fn parse_signed(v: &Vec<char>, from: usize, to: usize) -> (r: Option<i64>)
    requires
        from <= to <= v@.len(),
    ensures
        match signed_value(v@.subrange(from as int, to as int)) {
            Some(n) => if i64::MIN <= n <= i64::MAX {
                r is Some && r->0 == n
            } else {
                r is None
            },
            None => r is None,
        },
{
    let ghost s = v@.subrange(from as int, to as int);
    if from < to && v[from] == '-' {
        assert(s.skip(1) =~= v@.subrange(from + 1, to as int));
        match parse_digits(v, from + 1, to) {
            Some(n) => if n <= 0x7fff_ffff_ffff_ffff {
                Some(-(n as i64))
            } else if n == 0x8000_0000_0000_0000 {
                Some(i64::MIN)
            } else {
                None
            },
            None => None,
        }
    } else {
        let start: usize = if from < to && v[from] == '+' {
            from + 1
        } else {
            from
        };
        assert(start > from ==> s.skip(1) =~= v@.subrange(start as int, to as int));
        match parse_digits(v, start, to) {
            Some(n) => if n <= 0x7fff_ffff_ffff_ffff {
                Some(n as i64)
            } else {
                None
            },
            None => None,
        }
    }
}

/// The value of a decimal number that may have a plus sign.
pub open spec fn unsigned_value(s: Seq<char>) -> Option<nat> {
    if s.len() > 0 && s[0] == '+' {
        digits_value(s.skip(1))
    } else {
        digits_value(s)
    }
}

/// Reads a decimal number that may have a plus sign; `None` where it is none or
/// too large.
pub fn parse_unsigned(s: &str) -> (r: Option<u64>)
    ensures
        match unsigned_value(s@) {
            Some(n) => if n <= u64::MAX {
                r == Some(n as u64)
            } else {
                r is None
            },
            None => r is None,
        },
{
    let v = chars_of(s);
    let n: usize = v.len();
    if n > 0 && v[0] == '+' {
        assert(v@.subrange(1, n as int) =~= s@.skip(1));
        parse_digits(&v, 1, n)
    } else {
        assert(v@.subrange(0, n as int) =~= s@);
        parse_digits(&v, 0, n)
    }
}

/// The position at which `p` stands first, or -1 where it does not.
pub open spec fn text_index(s: Seq<char>, p: Seq<char>) -> int
    decreases s.len(),
{
    if p.is_prefix_of(s) {
        0
    } else if s.len() == 0 {
        -1
    } else {
        let k = text_index(s.skip(1), p);
        if k < 0 {
            -1
        } else {
            k + 1
        }
    }
}

/// What is found lies within the text.
pub proof fn lemma_text_index(s: Seq<char>, p: Seq<char>)
    ensures
        text_index(s, p) >= 0 ==> text_index(s, p) + p.len() <= s.len(),
        text_index(s, p) >= -1,
    decreases s.len(),
{
    if !p.is_prefix_of(s) && s.len() > 0 {
        lemma_text_index(s.skip(1), p);
    }
}

/// The parts of a text between the places where `p` stands.
pub open spec fn parts(s: Seq<char>, p: Seq<char>) -> Seq<Seq<char>>
    decreases s.len(),
{
    let i = text_index(s, p);
    if p.len() == 0 || i < 0 {
        seq![s]
    } else {
        proof {
            lemma_text_index(s, p);
        }
        seq![s.take(i)] + parts(s.skip(i + p.len()), p)
    }
}

/// Finds where `p` stands first from a position on.
pub fn find_from(v: &Vec<char>, p: &Vec<char>, from: usize) -> (r: Option<usize>)
    requires
        from <= v@.len(),
    ensures
        match r {
            Some(i) => from <= i && i + p@.len() <= v@.len() && text_index(
                v@.skip(from as int),
                p@,
            ) == i - from,
            None => text_index(v@.skip(from as int), p@) < 0,
        },
{
    let mut i: usize = from;
    loop
        invariant
            from <= i <= v@.len(),
            ({
                let k = text_index(v@.skip(i as int), p@);
                let all = text_index(v@.skip(from as int), p@);
                if k < 0 {
                    all < 0
                } else {
                    all == k + (i - from)
                }
            }),
        decreases v@.len() - i,
    {
        let ghost rest = v@.skip(i as int);
        if p.len() <= v.len() - i && matches_at(v, p, i) {
            assert(rest.subrange(0, p@.len() as int) =~= v@.subrange(i as int, i + p@.len()));
            return Some(i);
        }
        proof {
            if p@.is_prefix_of(rest) {
                assert(rest.subrange(0, p@.len() as int) =~= v@.subrange(i as int, i + p@.len()));
            }
        }
        if i == v.len() {
            return None;
        }
        assert(rest.skip(1) =~= v@.skip(i + 1));
        i += 1;
    }
}

/// The parts of a text between the places where `p` stands.
pub fn split_text(s: &str, p: &str) -> (r: Vec<String>)
    requires
        p@.len() > 0,
    ensures
        text_views(r@) == parts(s@, p@),
{
    let v = chars_of(s);
    let w = chars_of(p);
    let n: usize = v.len();
    let mut r: Vec<String> = Vec::new();
    let mut at: usize = 0;
    assert(v@.skip(0) =~= s@);
    assert(text_views(r@) + parts(v@.skip(0), w@) =~= parts(s@, p@));
    loop
        invariant
            at <= n == v@.len(),
            v@ == s@,
            w@ == p@,
            p@.len() > 0,
            text_views(r@) + parts(v@.skip(at as int), p@) == parts(s@, p@),
        decreases n - at,
    {
        let ghost before = text_views(r@);
        let ghost rest = v@.skip(at as int);
        match find_from(&v, &w, at) {
            Some(i) => {
                let part = string_of(&v, at, i);
                let next: usize = i + w.len();
                proof {
                    assert(part@ =~= rest.take(i - at));
                    assert(rest.skip((i - at) + p@.len()) =~= v@.skip(next as int));
                }
                r.push(part);
                assert(text_views(r@) =~= before.push(part@));
                assert(before + (seq![part@] + parts(v@.skip(next as int), p@)) =~= before.push(
                    part@,
                ) + parts(v@.skip(next as int), p@));
                at = next;
            },
            None => {
                let part = string_of(&v, at, n);
                assert(part@ =~= rest);
                r.push(part);
                assert(text_views(r@) =~= before + seq![rest]);
                return r;
            },
        }
    }
}

/// How many characters stand before the first white space.
pub open spec fn word_length(s: Seq<char>) -> int
    decreases s.len(),
{
    if s.len() == 0 || white_space(s[0]) {
        0
    } else {
        1 + word_length(s.skip(1))
    }
}

/// The words of a text, which white space separates.
pub open spec fn words(s: Seq<char>) -> Seq<Seq<char>>
    decreases s.len(),
{
    let t = trimmed_start(s);
    let n = word_length(t);
    proof {
        lemma_word(s);
    }
    if t.len() == 0 {
        Seq::empty()
    } else {
        seq![t.take(n)] + words(t.skip(n))
    }
}

/// A first word is not empty and lies within the text.
pub proof fn lemma_word(s: Seq<char>)
    ensures
        trimmed_start(s).len() <= s.len(),
        trimmed_start(s).len() > 0 ==> 0 < word_length(trimmed_start(s)),
        word_length(trimmed_start(s)) <= trimmed_start(s).len(),
    decreases s.len(),
{
    let t = trimmed_start(s);
    lemma_word_length(t);
    if t.len() > 0 {
        lemma_word_length(t.skip(1));
    }
    if s.len() > 0 && white_space(s[0]) {
        lemma_word(s.skip(1));
    }
}

proof fn lemma_word_length(s: Seq<char>)
    ensures
        0 <= word_length(s) <= s.len(),
    decreases s.len(),
{
    if s.len() > 0 && !white_space(s[0]) {
        lemma_word_length(s.skip(1));
    }
}

/// The words of a text.
pub fn split_words(s: &str) -> (r: Vec<String>)
    ensures
        text_views(r@) == words(s@),
{
    let v = chars_of(s);
    let n: usize = v.len();
    let mut r: Vec<String> = Vec::new();
    let mut at: usize = 0;
    assert(v@.skip(0) =~= s@);
    assert(text_views(r@) + words(v@.skip(0)) =~= words(s@));
    loop
        invariant
            at <= n == v@.len(),
            v@ == s@,
            text_views(r@) + words(v@.skip(at as int)) == words(s@),
        decreases n - at,
    {
        let ghost before = text_views(r@);
        let mut from: usize = at;
        while from < n && is_white_space(v[from])
            invariant
                at <= from <= n == v@.len(),
                trimmed_start(v@.skip(from as int)) == trimmed_start(v@.skip(at as int)),
            decreases n - from,
        {
            assert(v@.skip(from as int).skip(1) =~= v@.skip(from + 1));
            assert(v@.skip(from as int)[0] == v@[from as int]);
            from += 1;
        }
        let ghost t = v@.skip(from as int);
        proof {
            if from < n {
                assert(t[0] == v@[from as int]);
            }
            assert(trimmed_start(t) == t);
        }
        if from == n {
            assert(t.len() == 0);
            assert(before + Seq::<Seq<char>>::empty() =~= before);
            return r;
        }
        let mut to: usize = from;
        while to < n && !is_white_space(v[to])
            invariant
                from <= to <= n == v@.len(),
                word_length(v@.skip(from as int)) == (to - from) + word_length(v@.skip(to as int)),
            decreases n - to,
        {
            assert(v@.skip(to as int).skip(1) =~= v@.skip(to + 1));
            assert(v@.skip(to as int)[0] == v@[to as int]);
            to += 1;
        }
        proof {
            if to < n {
                assert(v@.skip(to as int)[0] == v@[to as int]);
            }
            lemma_word(v@.skip(at as int));
        }
        let word = string_of(&v, from, to);
        assert(word@ =~= t.take(to - from));
        assert(t.skip(to - from) =~= v@.skip(to as int));
        r.push(word);
        assert(text_views(r@) =~= before.push(word@));
        assert(before + (seq![word@] + words(v@.skip(to as int))) =~= before.push(word@) + words(
            v@.skip(to as int),
        ));
        at = to;
    }
}

// ---------------------------------------------------------------- what holds of texts

/// A letter `A` to `Z` becomes the letter at the same place of `a` to `z`; every
/// other character stays, and so does the number of characters.
pub proof fn law_lower_case_of_letters(s: Seq<char>, i: int)
    requires
        0 <= i < s.len(),
    ensures
        ascii_lowercase(s).len() == s.len(),
        'A' <= s[i] && s[i] <= 'Z' ==> 'a' <= ascii_lowercase(s)[i] && ascii_lowercase(s)[i] <= 'z'
            && ascii_lowercase(s)[i] as int - 'a' as int == s[i] as int - 'A' as int,
        !('A' <= s[i] && s[i] <= 'Z') ==> ascii_lowercase(s)[i] == s[i],
        is_ascii_text(s) ==> lowercase(s) == ascii_lowercase(s),
{
}

/// What cannot be seen is white space: no letter, digit or mark of ASCII is any,
/// nor any Chinese character; the blank, the tab and the ends of lines are.
pub proof fn law_white_space(c: char)
    ensures
        '!' <= c && c <= '~' ==> !white_space(c),
        0x4e00 <= c as int <= 0x9fff ==> !white_space(c),
        c == ' ' || c == '\t' || c == '\n' || c == '\r' || c == '\u{3000}' ==> white_space(c),
        c == '\0' ==> !white_space(c),
{
}

/// Trimming takes only white space away, at both ends, and all of it there.
pub proof fn law_trimmed(s: Seq<char>)
    ensures
        exists|from: int, to: int|
            0 <= from <= to <= s.len() && trimmed(s) == #[trigger] s.subrange(from, to) && (forall|
                i: int,
            |
                0 <= i < from || to <= i < s.len() ==> white_space(#[trigger] s[i])),
        trimmed(s).len() > 0 ==> !white_space(trimmed(s)[0]) && !white_space(trimmed(s).last()),
{
    let from = lemma_trimmed_start(s);
    let t = trimmed_start(s);
    let n = lemma_trimmed_end(t);
    assert(trimmed(s) =~= s.subrange(from, from + n));
    assert forall|i: int| 0 <= i < from || from + n <= i < s.len() implies white_space(
        #[trigger] s[i],
    ) by {
        if i >= from {
            assert(s[i] == t[i - from]);
        }
    }
    if n > 0 {
        assert(trimmed(s)[0] == t[0]);
    }
}

proof fn lemma_trimmed_start(s: Seq<char>) -> (from: int)
    ensures
        0 <= from <= s.len(),
        trimmed_start(s) == s.skip(from),
        forall|i: int| 0 <= i < from ==> white_space(#[trigger] s[i]),
        from < s.len() ==> !white_space(s[from]),
    decreases s.len(),
{
    if s.len() > 0 && white_space(s[0]) {
        let k = lemma_trimmed_start(s.skip(1));
        assert(s.skip(1).skip(k) =~= s.skip(k + 1));
        assert forall|i: int| 0 <= i < k + 1 implies white_space(#[trigger] s[i]) by {
            if i > 0 {
                assert(s.skip(1)[i - 1] == s[i]);
            }
        }
        k + 1
    } else {
        assert(s.skip(0) =~= s);
        0
    }
}

proof fn lemma_trimmed_end(s: Seq<char>) -> (to: int)
    ensures
        0 <= to <= s.len(),
        trimmed_end(s) == s.take(to),
        forall|i: int| to <= i < s.len() ==> white_space(#[trigger] s[i]),
        to > 0 ==> !white_space(s[to - 1]),
    decreases s.len(),
{
    if s.len() > 0 && white_space(s.last()) {
        let k = lemma_trimmed_end(s.drop_last());
        assert(s.drop_last().take(k) =~= s.take(k));
        assert forall|i: int| k <= i < s.len() implies white_space(#[trigger] s[i]) by {
            if i < s.len() - 1 {
                assert(s.drop_last()[i] == s[i]);
            }
        }
        k
    } else {
        assert(s.take(s.len() as int) =~= s);
        s.len() as int
    }
}

/// Cutting gives the beginning, as long as it may be.
pub proof fn law_first_characters(s: Seq<char>, n: nat)
    ensures
        first_chars(s, n).is_prefix_of(s),
        first_chars(s, n).len() <= n,
        first_chars(s, n).len() == n || first_chars(s, n) == s,
{
}

/// Only `c` is taken from the end, and all of it.
pub proof fn law_nothing_but_the_end_goes(s: Seq<char>, c: char)
    ensures
        without_trailing(s, c).is_prefix_of(s),
        forall|i: int| without_trailing(s, c).len() <= i < s.len() ==> #[trigger] s[i] == c,
        without_trailing(s, c).len() > 0 ==> without_trailing(s, c).last() != c,
    decreases s.len(),
{
    if s.len() > 0 && s.last() == c {
        let t = s.drop_last();
        law_nothing_but_the_end_goes(t, c);
        let r = without_trailing(t, c);
        assert(s.subrange(0, r.len() as int) =~= t.subrange(0, r.len() as int));
        assert forall|i: int| r.len() <= i < s.len() implies #[trigger] s[i] == c by {
            if i < t.len() {
                assert(t[i] == s[i]);
            }
        }
    }
}

/// Only `c` is taken from the beginning, and all of it.
pub proof fn law_nothing_but_the_beginning_goes(s: Seq<char>, c: char)
    ensures
        without_leading(s, c).is_suffix_of(s),
        forall|i: int| 0 <= i < s.len() - without_leading(s, c).len() ==> #[trigger] s[i] == c,
        without_leading(s, c).len() > 0 ==> without_leading(s, c)[0] != c,
    decreases s.len(),
{
    if s.len() > 0 && s[0] == c {
        let t = s.skip(1);
        law_nothing_but_the_beginning_goes(t, c);
        let r = without_leading(t, c);
        assert(s.subrange(s.len() - r.len(), s.len() as int) =~= t.subrange(
            t.len() - r.len(),
            t.len() as int,
        ));
        assert forall|i: int| 0 <= i < s.len() - r.len() implies #[trigger] s[i] == c by {
            if i > 0 {
                assert(t[i - 1] == s[i]);
            }
        }
    }
}

/// One more at the beginning makes no difference, none is left there, and where
/// none stands there nothing changes.
pub proof fn law_without_prefix(s: Seq<char>, p: Seq<char>)
    requires
        p.len() > 0,
    ensures
        without_prefix(p + s, p) == without_prefix(s, p),
        !p.is_prefix_of(without_prefix(s, p)),
        !p.is_prefix_of(s) ==> without_prefix(s, p) == s,
    decreases s.len(),
{
    assert((p + s).subrange(0, p.len() as int) =~= p);
    assert((p + s).skip(p.len() as int) =~= s);
    if p.is_prefix_of(s) {
        law_without_prefix(s.skip(p.len() as int), p);
    }
}

/// One more at the end makes no difference, none is left there, and where none
/// stands there nothing changes.
pub proof fn law_without_suffix(s: Seq<char>, p: Seq<char>)
    requires
        p.len() > 0,
    ensures
        without_suffix(s + p, p) == without_suffix(s, p),
        !p.is_suffix_of(without_suffix(s, p)),
        !p.is_suffix_of(s) ==> without_suffix(s, p) == s,
    decreases s.len(),
{
    let t = s + p;
    assert(t.subrange(t.len() - p.len(), t.len() as int) =~= p);
    assert(t.take(t.len() - p.len()) =~= s);
    if p.is_suffix_of(s) {
        law_without_suffix(s.take(s.len() - p.len()), p);
    }
}

/// Two texts are the same where each character of one stands at its place in the
/// other; a text begins with another, ends with it or holds it where each of its
/// characters stands at its place there.
pub proof fn law_texts_are_compared_by_their_characters(
    s: &str,
    p: &str,
    is_same: bool,
    begins: bool,
    ends: bool,
    holds: bool,
)
    requires
        call_ensures(same, (s, p), is_same),
        call_ensures(starts_with, (s, p), begins),
        call_ensures(ends_with, (s, p), ends),
        call_ensures(contains, (s, p), holds),
    ensures
        is_same <==> s@.len() == p@.len() && forall|i: int|
            0 <= i < s@.len() ==> #[trigger] s@[i] == p@[i],
        begins <==> p@.len() <= s@.len() && forall|i: int|
            0 <= i < p@.len() ==> s@[i] == #[trigger] p@[i],
        ends <==> p@.len() <= s@.len() && forall|i: int|
            0 <= i < p@.len() ==> s@[s@.len() - p@.len() + i] == #[trigger] p@[i],
        holds <==> exists|at: int|
            0 <= at <= s@.len() - p@.len() && #[trigger] stands_at(s@, p@, at),
{
    let a = s@;
    let b = p@;
    assert(is_same == (a =~= b));
    if b.len() <= a.len() {
        assert(begins == (b =~= a.subrange(0, b.len() as int)));
        let e = a.subrange(a.len() - b.len(), a.len() as int);
        assert(ends == (b =~= e));
        assert(forall|i: int| 0 <= i < b.len() ==> e[i] == a[a.len() - b.len() + i]);
    }
    if holds {
        let at = choose|at: int| occurs_at(a, b, at);
        assert forall|j: int| 0 <= j < b.len() implies a[at + j] == #[trigger] b[j] by {
            assert(a.subrange(at, at + b.len())[j] == b[j]);
        }
        assert(stands_at(a, b, at));
    }
    if exists|at: int| 0 <= at <= a.len() - b.len() && #[trigger] stands_at(a, b, at) {
        let at = choose|at: int| 0 <= at <= a.len() - b.len() && #[trigger] stands_at(a, b, at);
        assert(a.subrange(at, at + b.len()) =~= b);
        assert(occurs_at(a, b, at));
    }
}

/// Each character of `p` stands at its place in `s`, counted from `at`.
pub open spec fn stands_at(s: Seq<char>, p: Seq<char>, at: int) -> bool {
    forall|j: int| 0 <= j < p.len() ==> s[at + j] == #[trigger] p[j]
}

// ---------------------------------------------------------------- what holds of numbers

/// The last digit of a number is its rest by ten, and the digits before it are
/// those of its tenth; there is no zero in front. In hexadecimal it is the rest
/// by sixteen.
pub proof fn law_digits(n: nat)
    ensures
        n < 10 ==> decimal(n) == seq!["0123456789"@[n as int]],
        n >= 10 ==> decimal(n) == decimal(n / 10).push("0123456789"@[(n % 10) as int]),
        n < 16 ==> digits(n, 16) == seq!["0123456789abcdef"@[n as int]],
        n >= 16 ==> digits(n, 16) == digits(n / 16, 16).push(
            "0123456789abcdef"@[(n % 16) as int],
        ),
{
    reveal_strlit("0123456789");
    reveal_strlit("0123456789abcdef");
}

/// A number that was written reads back: its digits, with a sign where it is
/// negative.
pub proof fn law_numbers_read_back(n: nat, k: int)
    ensures
        digits_value(decimal(n)) == Some(n),
        unsigned_value(decimal(n)) == Some(n),
        unsigned_value(seq!['+'] + decimal(n)) == Some(n),
        signed_value(signed_decimal(k)) == Some(k),
        signed_value(seq!['+'] + decimal(n)) == Some(n as int),
        k < 0 ==> signed_decimal(k)[0] == '-',
        k >= 0 ==> signed_decimal(k) == decimal(k as nat),
{
    lemma_digits_read_back(n);
    lemma_digits_read_back(
        (if k < 0 {
            -k
        } else {
            k
        }) as nat,
    );
    assert((seq!['+'] + decimal(n)).skip(1) =~= decimal(n));
    if k < 0 {
        assert(signed_decimal(k).skip(1) =~= decimal((-k) as nat));
    }
}

proof fn lemma_digits_read_back(n: nat)
    ensures
        digits_value(decimal(n)) == Some(n),
        decimal(n).len() > 0,
        '0' <= decimal(n)[0] && decimal(n)[0] <= '9',
    decreases n,
{
    if n >= 10 {
        lemma_digits_read_back(n / 10);
        assert(decimal(n).drop_last() =~= decimal(n / 10));
    }
}

/// Only digits are a number, and nothing is none: one digit more is ten times as
/// much and that digit.
pub proof fn law_value_of_digits(s: Seq<char>, c: char)
    ensures
        digits_value(Seq::empty()) is None,
        !('0' <= c && c <= '9') ==> digits_value(s.push(c)) is None,
        '0' <= c && c <= '9' && s.len() == 0 ==> digits_value(s.push(c)) == Some(
            (c as int - '0' as int) as nat,
        ),
        '0' <= c && c <= '9' && s.len() > 0 ==> match digits_value(s) {
            Some(n) => digits_value(s.push(c)) == Some((10 * n + (c as int - '0' as int)) as nat),
            None => digits_value(s.push(c)) is None,
        },
{
    assert(s.push(c).drop_last() =~= s);
}

/// A number that was written and fits is read as it was written.
pub proof fn law_reading_what_was_written(
    n: u64,
    k: i64,
    written: &str,
    signed_written: String,
    chars: Vec<char>,
    kept: String,
    read: Option<u64>,
    signed_read: Option<i64>,
)
    requires
        call_ensures(decimal_string, (n,), kept),
        written@ == kept@,
        call_ensures(parse_unsigned, (written,), read),
        call_ensures(signed_string, (k,), signed_written),
        chars@ == signed_written@,
        chars@.len() <= usize::MAX,
        call_ensures(parse_signed, (&chars, 0usize, chars@.len() as usize), signed_read),
    ensures
        read == Some(n),
        signed_read == Some(k),
{
    law_numbers_read_back(n as nat, k as int);
    assert(chars@.subrange(0, chars@.len() as int) =~= chars@);
}

/// Zeros are put in front, and only as many as are missing.
pub proof fn law_zero_padded(s: Seq<char>, width: nat)
    ensures
        zero_padded(s, width).len() == if s.len() < width {
            width
        } else {
            s.len()
        },
        s.is_suffix_of(zero_padded(s, width)),
        forall|i: int|
            0 <= i < zero_padded(s, width).len() - s.len() ==> #[trigger] zero_padded(s, width)[i]
                == '0',
{
    let t = zero_padded(s, width);
    assert(t.subrange(t.len() - s.len(), t.len() as int) =~= s);
}

/// The last digit of a number in upper-case hexadecimal is its rest by sixteen;
/// before it stands a sixteenth of it, with one digit less at least.
pub proof fn law_upper_hexadecimal(n: nat, width: nat)
    ensures
        upper_hex(n, width).len() >= width,
        upper_hex(n, width).len() >= 1,
        upper_hex(n, width).last() == "0123456789ABCDEF"@[(n % 16) as int],
        n >= 16 && width >= 1 ==> upper_hex(n, width).drop_last() == upper_hex(
            n / 16,
            (width - 1) as nat,
        ),
        n < 16 ==> forall|i: int|
            0 <= i < upper_hex(n, width).len() - 1 ==> #[trigger] upper_hex(n, width)[i] == '0',
        n < 16 && width <= 1 ==> upper_hex(n, width).len() == 1,
{
    reveal_strlit("0123456789ABCDEF");
    let d = digits(n, 16);
    let s = zero_padded(d, width);
    assert(d.len() >= 1);
    assert(s.last() == d.last());
    assert(d.last() == digit_char((n % 16) as int));
    if n >= 16 && width >= 1 {
        let e = digits(n / 16, 16);
        assert(d == e.push(digit_char((n % 16) as int)));
        assert(zero_padded(e, (width - 1) as nat) =~= s.drop_last());
        assert(upper_hex(n, width).drop_last() =~= upper_hex(n / 16, (width - 1) as nat));
    }
}

// ---------------------------------------------------------------- what holds of encoding and cutting

/// Each character is encoded for itself: one below `0x10000` as itself, any other
/// as a high and a low half that hold ten bits each.
pub proof fn law_utf16(a: Seq<char>, b: Seq<char>, c: char)
    ensures
        utf16(Seq::empty()) == Seq::<u16>::empty(),
        utf16(a + b) == utf16(a) + utf16(b),
        (c as int) < 0x10000 ==> utf16(seq![c]).len() == 1 && utf16(seq![c])[0] == c as int,
        (c as int) >= 0x10000 ==> {
            let u = utf16(seq![c]);
            &&& u.len() == 2
            &&& 0xd800 <= u[0] < 0xdc00
            &&& 0xdc00 <= u[1] < 0xe000
            &&& 0x10000 + (u[0] - 0xd800) * 0x400 + (u[1] - 0xdc00) == c as int
        },
    decreases b.len(),
{
    if b.len() == 0 {
        assert(a + b =~= a);
        assert(utf16(a) + utf16(b) =~= utf16(a));
    } else {
        law_utf16(a, b.drop_last(), c);
        assert((a + b).drop_last() =~= a + b.drop_last());
        assert((a + b).last() == b.last());
        assert(utf16(a + b) =~= utf16(a) + utf16(b));
    }
    assert(seq![c].drop_last() =~= Seq::empty());
    assert(utf16(Seq::empty()) =~= Seq::<u16>::empty());
    assert(utf16(seq![c]) =~= utf16_units(c));
}

/// A line ends where the first line feed stands; a carriage return before it
/// belongs to the end and not to the line. What follows is cut in the same way,
/// and nothing behind the last line feed is no line.
pub proof fn law_lines(a: Seq<char>, b: Seq<char>)
    requires
        !a.contains('\n'),
    ensures
        lines_of(Seq::empty()) == Seq::<Seq<char>>::empty(),
        a.len() > 0 ==> lines_of(a) == seq![a],
        a.len() == 0 || a.last() != '\r' ==> lines_of(a.push('\n') + b) == seq![a] + lines_of(b),
        lines_of(a.push('\r').push('\n') + b) == seq![a] + lines_of(b),
{
    lemma_first_index(a, '\n');
    if first_index(a, '\n') < a.len() {
        assert(a.contains(a[first_index(a, '\n')]));
    }
    lemma_line_ends(a, b);
    let c = a.push('\r');
    assert(!c.contains('\n')) by {
        if c.contains('\n') {
            let i = choose|i: int| 0 <= i < c.len() && c[i] == '\n';
            assert(a.contains(a[i]));
        }
    }
    lemma_line_ends(c, b);
    assert(c.drop_last() =~= a);
}

proof fn lemma_line_ends(a: Seq<char>, b: Seq<char>)
    requires
        !a.contains('\n'),
    ensures
        lines_of(a.push('\n') + b) == seq![without_cr(a)] + lines_of(b),
{
    let s = a.push('\n') + b;
    lemma_first_index(s, '\n');
    let i = first_index(s, '\n');
    assert(s[a.len() as int] == '\n');
    if i < a.len() {
        assert(a.contains(a[i]));
    }
    assert(i == a.len());
    assert(s.take(i) =~= a);
    assert(s.skip(i + 1) =~= b);
}

/// Texts in a row, with `p` between each two.
pub open spec fn joined(t: Seq<Seq<char>>, p: Seq<char>) -> Seq<char>
    decreases t.len(),
{
    if t.len() == 0 {
        Seq::empty()
    } else if t.len() == 1 {
        t[0]
    } else {
        t[0] + p + joined(t.skip(1), p)
    }
}

/// What is found is the first place where the text stands; nothing is found only
/// where it stands nowhere.
pub proof fn law_first_place(s: Seq<char>, p: Seq<char>, k: int)
    ensures
        text_index(s, p) >= 0 ==> occurs_at(s, p, text_index(s, p)),
        text_index(s, p) >= 0 && 0 <= k < text_index(s, p) ==> !occurs_at(s, p, k),
        text_index(s, p) < 0 ==> !occurs_at(s, p, k),
    decreases s.len(),
{
    if p.is_prefix_of(s) {
    } else {
        if occurs_at(s, p, 0) {
            assert(s.subrange(0, 0int + p.len()) =~= s.subrange(0, p.len() as int));
        }
        if s.len() > 0 {
            let t = s.skip(1);
            law_first_place(t, p, k - 1);
            let i = text_index(t, p);
            if i >= 0 {
                assert(t.subrange(i, i + p.len()) =~= s.subrange(i + 1, i + 1 + p.len()));
            }
            if k > 0 && occurs_at(s, p, k) {
                assert(t.subrange(k - 1, k - 1 + p.len()) =~= s.subrange(k, k + p.len()));
            }
        } else if occurs_at(s, p, k) {
            assert(p.len() == 0);
            assert(p =~= s.subrange(0, 0));
        }
    }
}

/// The parts with the separator between them are the text again, and no part
/// holds the separator.
pub proof fn law_parts_make_the_text(s: Seq<char>, p: Seq<char>)
    requires
        p.len() > 0,
    ensures
        parts(s, p).len() > 0,
        joined(parts(s, p), p) == s,
        forall|i: int| 0 <= i < parts(s, p).len() ==> !occurs(#[trigger] parts(s, p)[i], p),
    decreases s.len(),
{
    let i = text_index(s, p);
    lemma_text_index(s, p);
    let all = parts(s, p);
    if i < 0 {
        if occurs(s, p) {
            let k = choose|k: int| occurs_at(s, p, k);
            law_first_place(s, p, k);
        }
    } else {
        let rest = s.skip(i + p.len());
        law_parts_make_the_text(rest, p);
        assert(all.skip(1) =~= parts(rest, p));
        assert(all[0] == s.take(i));
        law_first_place(s, p, 0);
        assert(s =~= s.take(i) + p + rest);
        if occurs(s.take(i), p) {
            let k = choose|k: int| occurs_at(s.take(i), p, k);
            assert(s.take(i).subrange(k, k + p.len()) =~= s.subrange(k, k + p.len()));
            law_first_place(s, p, k);
        }
        assert forall|j: int| 0 <= j < all.len() implies !occurs(#[trigger] all[j], p) by {
            if j > 0 {
                assert(all[j] == parts(rest, p)[j - 1]);
            }
        }
    }
}

/// White space in front belongs to no word; what stands before white space, or
/// before the end, is one word.
pub proof fn law_words(a: Seq<char>, c: char, b: Seq<char>)
    requires
        a.len() > 0,
        forall|i: int| 0 <= i < a.len() ==> !white_space(#[trigger] a[i]),
        white_space(c),
    ensures
        words(Seq::empty()) == Seq::<Seq<char>>::empty(),
        words(seq![c] + b) == words(b),
        words(a) == seq![a],
        words(a.push(c) + b) == seq![a] + words(b),
{
    let s = seq![c] + b;
    assert(s.skip(1) =~= b);
    assert(trimmed_start(s) == trimmed_start(b));
    assert(words(s) == words(b));
    lemma_word_length_of(a, Seq::empty());
    assert(a + Seq::empty() =~= a);
    assert(a.take(a.len() as int) =~= a);
    assert(words(a.skip(a.len() as int)) =~= Seq::empty());
    assert(words(a) =~= seq![a]);
    let t = a.push(c) + b;
    assert(t =~= a + s);
    lemma_word_length_of(a, s);
    assert(t[0] == a[0]);
    assert(t.take(a.len() as int) =~= a);
    assert(t.skip(a.len() as int) =~= s);
}

proof fn lemma_word_length_of(a: Seq<char>, b: Seq<char>)
    requires
        forall|i: int| 0 <= i < a.len() ==> !white_space(#[trigger] a[i]),
        b.len() > 0 ==> white_space(b[0]),
    ensures
        word_length(a + b) == a.len(),
    decreases a.len(),
{
    if a.len() > 0 {
        assert((a + b)[0] == a[0]);
        assert((a + b).skip(1) =~= a.skip(1) + b);
        assert forall|i: int| 0 <= i < a.skip(1).len() implies !white_space(
            #[trigger] a.skip(1)[i],
        ) by {
            assert(a.skip(1)[i] == a[i + 1]);
        }
        lemma_word_length_of(a.skip(1), b);
    } else {
        assert(a + b =~= b);
    }
}

} // verus!
