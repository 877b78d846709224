//! Character-level helpers shared by the text processing code.
use vstd::prelude::*;

verus! {

broadcast use vstd::string::group_string_axioms;

/// The characters of `s`, in order.
pub fn chars_of(s: &str) -> (v: Vec<char>)
    ensures
        v@ == s@,
{
    let mut v: Vec<char> = Vec::new();
    for c in it: s.chars()
        invariant
            v@ == it.seq().take(it.index() as int),
            it.seq() == s@,
    {
        v.push(c);
    }
    v
}

/// Collects the characters of `v` into a `String` (`Iterator::collect`
/// through `String: FromIterator<&char>`); the contract claims the string
/// holds exactly those characters, in order.
#[verifier::external_body]
pub fn string_from_chars(v: &Vec<char>) -> (s: String)
    ensures
        s@ == v@,
{
    v.iter().collect()
}


/// Unicode `White_Space`, the set that `char::is_whitespace` and `str::trim` use.
pub open spec fn is_ws(c: char) -> bool {
    let u = c as u32;
    ||| 0x09 <= u <= 0x0d
    ||| u == 0x20
    ||| u == 0x85
    ||| u == 0xa0
    ||| u == 0x1680
    ||| 0x2000 <= u <= 0x200a
    ||| u == 0x2028
    ||| u == 0x2029
    ||| u == 0x202f
    ||| u == 0x205f
    ||| u == 0x3000
}

pub fn is_whitespace(c: char) -> (b: bool)
    ensures
        b == is_ws(c),
{
    let u = c as u32;
    (0x09 <= u && u <= 0x0d) || u == 0x20 || u == 0x85 || u == 0xa0 || u == 0x1680 || (0x2000
        <= u && u <= 0x200a) || u == 0x2028 || u == 0x2029 || u == 0x202f || u == 0x205f || u
        == 0x3000
}

/// `s` without its leading whitespace.
pub open spec fn trim_start(s: Seq<char>) -> Seq<char>
    decreases s.len(),
{
    if s.len() > 0 && is_ws(s[0]) {
        trim_start(s.skip(1))
    } else {
        s
    }
}

/// `s` without its trailing whitespace.
pub open spec fn trim_end(s: Seq<char>) -> Seq<char>
    decreases s.len(),
{
    if s.len() > 0 && is_ws(s.last()) {
        trim_end(s.drop_last())
    } else {
        s
    }
}

/// `s` without leading and trailing whitespace, as `str::trim` returns it.
pub open spec fn trim(s: Seq<char>) -> Seq<char> {
    trim_end(trim_start(s))
}

/// `trim_start(s)` is `s` without some leading characters, and starts with
/// no whitespace.
pub proof fn lemma_trim_start(s: Seq<char>)
    ensures
        exists|i: int| 0 <= i <= s.len() && trim_start(s) == s.skip(i),
        trim_start(s).len() > 0 ==> !is_ws(trim_start(s)[0]),
    decreases s.len(),
{
    if s.len() > 0 && is_ws(s[0]) {
        lemma_trim_start(s.skip(1));
        let i = choose|i: int| 0 <= i <= s.skip(1).len() && trim_start(s.skip(1)) == s.skip(1).skip(i);
        assert(s.skip(1).skip(i) =~= s.skip(i + 1));
    } else {
        assert(s.skip(0) =~= s);
    }
}

/// `trim_end(s)` is `s` without some trailing characters, and ends with no
/// whitespace.
pub proof fn lemma_trim_end(s: Seq<char>)
    ensures
        exists|j: int| 0 <= j <= s.len() && trim_end(s) == s.take(j),
        trim_end(s).len() > 0 ==> !is_ws(trim_end(s).last()),
    decreases s.len(),
{
    if s.len() > 0 && is_ws(s.last()) {
        lemma_trim_end(s.drop_last());
        let j = choose|j: int| 0 <= j <= s.drop_last().len() && trim_end(s.drop_last()) == s.drop_last().take(j);
        assert(s.drop_last().take(j) =~= s.take(j));
    } else {
        assert(s.take(s.len() as int) =~= s);
    }
}

/// `trim(s)` is a stretch of `s` that neither starts nor ends with
/// whitespace.
pub proof fn lemma_trim(s: Seq<char>)
    ensures
        exists|i: int, j: int| 0 <= i <= j <= s.len() && trim(s) == s.subrange(i, j),
        trim(s).len() > 0 ==> !is_ws(trim(s)[0]) && !is_ws(trim(s).last()),
{
    lemma_trim_start(s);
    let i = choose|i: int| 0 <= i <= s.len() && trim_start(s) == s.skip(i);
    let t = trim_start(s);
    lemma_trim_end(t);
    let j = choose|j: int| 0 <= j <= t.len() && trim_end(t) == t.take(j);
    assert(t.take(j) =~= s.subrange(i, i + j));
    if trim(s).len() > 0 {
        assert(trim(s)[0] == t[0]);
    }
}

/// The characters `v[start..end]`.
pub fn slice_chars(v: &Vec<char>, start: usize, end: usize) -> (r: Vec<char>)
    requires
        start <= end <= v.len(),
    ensures
        r@ == v@.subrange(start as int, end as int),
{
    let mut r: Vec<char> = Vec::new();
    let mut i = start;
    while i < end
        invariant
            start <= i <= end <= v.len(),
            r@ == v@.subrange(start as int, i as int),
        decreases end - i,
    {
        r.push(v[i]);
        i += 1;
        assert(r@ =~= v@.subrange(start as int, i as int));
    }
    r
}

proof fn lemma_trim_start_skip(s: Seq<char>, i: int)
    requires
        0 <= i < s.len(),
        is_ws(s[i]),
    ensures
        trim_start(s.skip(i)) == trim_start(s.skip(i + 1)),
{
    assert(s.skip(i).skip(1) =~= s.skip(i + 1));
}

proof fn lemma_trim_end_take(s: Seq<char>, j: int)
    requires
        0 < j <= s.len(),
        is_ws(s[j - 1]),
    ensures
        trim_end(s.take(j)) == trim_end(s.take(j - 1)),
{
    assert(s.take(j).drop_last() =~= s.take(j - 1));
}

/// `v` without leading and trailing whitespace.
pub fn trim_chars(v: &Vec<char>) -> (r: Vec<char>)
    ensures
        r@ == trim(v@),
{
    let mut i: usize = 0;
    assert(v@.skip(0) =~= v@);
    while i < v.len() && is_whitespace(v[i])
        invariant
            0 <= i <= v.len(),
            trim_start(v@) == trim_start(v@.skip(i as int)),
        decreases v.len() - i,
    {
        proof {
            lemma_trim_start_skip(v@, i as int);
        }
        i += 1;
    }
    let ghost t = v@.skip(i as int);
    assert(trim_start(v@) == t);
    let mut j: usize = v.len();
    while j > i && is_whitespace(v[j - 1])
        invariant
            i <= j <= v.len(),
            t == v@.skip(i as int),
            trim_end(t) == trim_end(v@.subrange(i as int, j as int)),
        decreases j,
    {
        proof {
            let u = v@.subrange(i as int, j as int);
            assert(u.drop_last() =~= v@.subrange(i as int, j - 1));
        }
        j -= 1;
    }
    proof {
        let u = v@.subrange(i as int, j as int);
        if j > i {
            assert(u.last() == v@[j - 1]);
        }
        assert(t.skip(0) =~= t);
        if i == v.len() {
            assert(t =~= Seq::<char>::empty());
        }
    }
    assert(v@.subrange(i as int, v.len() as int) =~= t);
    slice_chars(v, i, j)
}

/// ASCII letters map to lower case; every other character stays.
pub open spec fn ascii_lower(c: char) -> char {
    if 'A' <= c && c <= 'Z' {
        ((c as u32) + 32) as char
    } else {
        c
    }
}

pub fn to_ascii_lower(c: char) -> (r: char)
    ensures
        r == ascii_lower(c),
{
    if 'A' <= c && c <= 'Z' {
        ((c as u8) + 32) as char
    } else {
        c
    }
}

pub open spec fn is_ascii_alpha(c: char) -> bool {
    ('a' <= c && c <= 'z') || ('A' <= c && c <= 'Z')
}


/// The ASCII digit for `d` (below 10).
pub open spec fn digit_char(d: nat) -> char {
    (48 + d) as char
}

/// `n` in decimal, without leading zeros.
pub open spec fn decimal(n: nat) -> Seq<char>
    decreases n,
{
    if n < 10 {
        seq![digit_char(n)]
    } else {
        decimal(n / 10).push(digit_char(n % 10))
    }
}

/// `n` in decimal, as `u64`'s `Display` writes it.
pub fn format_decimal(n: u64) -> (s: String)
    ensures
        s@ == decimal(n as nat),
{
    let mut digits: Vec<char> = Vec::new();
    let mut v = n;
    loop
        invariant_except_break
            v <= n,
            decimal(n as nat) == decimal(v as nat) + digits@,
        ensures
            decimal(n as nat) == digits@,
        decreases v,
    {
        let ghost old_digits = digits@;
        let d = ((48 + v % 10) as u8) as char;
        if v < 10 {
            digits.insert(0, d);
            assert(decimal(v as nat) + old_digits =~= digits@);
            break;
        }
        digits.insert(0, d);
        assert(decimal((v / 10) as nat).push(digit_char((v % 10) as nat)) + old_digits
            =~= decimal((v / 10) as nat) + digits@);
        v = v / 10;
    }
    string_from_chars(&digits)
}

pub open spec fn is_digit(c: char) -> bool {
    '0' <= c && c <= '9'
}

/// The value of a string of ASCII digits.
pub open spec fn digits_value(s: Seq<char>) -> nat
    decreases s.len(),
{
    if s.len() == 0 {
        0
    } else {
        digits_value(s.drop_last()) * 10 + ((s.last() as u32) - 48) as nat
    }
}

/// The digits of an unsigned integer literal: `s` without one leading `+`.
pub open spec fn unsigned_digits(s: Seq<char>) -> Seq<char> {
    if s.len() > 0 && s[0] == '+' {
        s.skip(1)
    } else {
        s
    }
}

/// The value of `s` read as an unsigned decimal integer the way
/// `str::parse` reads one (an optional `+`, then one or more ASCII digits,
/// nothing else), before the range of the target type is checked.
pub open spec fn unsigned_value(s: Seq<char>) -> Option<nat> {
    let d = unsigned_digits(s);
    if d.len() > 0 && forall|i: int| 0 <= i < d.len() ==> is_digit(#[trigger] d[i]) {
        Some(digits_value(d))
    } else {
        None
    }
}

/// What `str::parse` gives for an unsigned type whose largest value is `max`.
pub open spec fn parsed_unsigned(s: Seq<char>, max: nat) -> Option<nat> {
    match unsigned_value(s) {
        Some(n) => if n <= max {
            Some(n)
        } else {
            None
        },
        None => None,
    }
}

proof fn lemma_digits_value_prefix(s: Seq<char>, i: int)
    requires
        0 <= i <= s.len(),
    ensures
        digits_value(s.take(i)) <= digits_value(s),
    decreases s.len(),
{
    if i < s.len() {
        lemma_digits_value_prefix(s.drop_last(), i);
        assert(s.drop_last().take(i) =~= s.take(i));
    } else {
        assert(s.take(i) =~= s);
    }
}

/// Reads `s` as an unsigned decimal integer no larger than `max`.
pub fn parse_unsigned(s: &str, max: u64) -> (r: Option<u64>)
    ensures
        match parsed_unsigned(s@, max as nat) {
            Some(n) => r == Some(n as u64),
            None => r is None,
        },
{
    let v = chars_of(s);
    let mut i: usize = 0;
    if v.len() > 0 && v[0] == '+' {
        i = 1;
    }
    let ghost d = unsigned_digits(s@);
    assert(d =~= v@.skip(i as int));
    if i >= v.len() {
        return None;
    }
    let start = i;
    let mut value: u64 = 0;
    assert(d.take(0) =~= Seq::<char>::empty());
    while i < v.len()
        invariant
            v@ == s@,
            d == v@.skip(start as int),
            d == unsigned_digits(s@),
            start < v.len(),
            start <= i <= v.len(),
            value <= max,
            value == digits_value(d.take(i - start)),
            forall|k: int| 0 <= k < i - start ==> is_digit(#[trigger] d[k]),
        decreases v.len() - i,
    {
        let c = v[i];
        assert(d[i - start] == c);
        if !('0' <= c && c <= '9') {
            assert(!is_digit(d[i - start]));
            return None;
        }
        let digit = (c as u32 - 48) as u64;
        assert(d.take(i - start + 1).drop_last() =~= d.take(i - start));
        assert(d.take(i - start + 1).last() == c);
        if digit > max || value > (max - digit) / 10 {
            proof {
                if digit <= max {
                    assert(value * 10 + digit > max) by (nonlinear_arith)
                        requires
                            value > (max - digit) / 10,
                            digit <= max,
                    ;
                }
                lemma_digits_value_prefix(d, i - start + 1);
            }
            return None;
        }
        assert(value * 10 + digit <= max) by (nonlinear_arith)
            requires
                value <= (max - digit) / 10,
                digit <= max,
        ;
        value = value * 10 + digit;
        i += 1;
    }
    assert(d.take(i - start) =~= d);
    Some(value)
}

/// The pieces of `s` between commas, as `str::split(',')` yields them: one
/// more piece than there are commas.
pub open spec fn comma_pieces(s: Seq<char>) -> Seq<Seq<char>>
    decreases s.len(),
{
    if s.len() == 0 {
        seq![Seq::empty()]
    } else {
        let p = comma_pieces(s.drop_last());
        if s.last() == ',' {
            p.push(Seq::empty())
        } else {
            p.update(p.len() - 1, p.last().push(s.last()))
        }
    }
}

proof fn lemma_comma_pieces_nonempty(s: Seq<char>)
    ensures
        comma_pieces(s).len() >= 1,
    decreases s.len(),
{
    if s.len() > 0 {
        lemma_comma_pieces_nonempty(s.drop_last());
    }
}

/// The pieces of `v` between commas.
pub fn split_commas(v: &Vec<char>) -> (r: Vec<Vec<char>>)
    ensures
        r@.map_values(|p: Vec<char>| p@) == comma_pieces(v@),
{
    let mut pieces: Vec<Vec<char>> = Vec::new();
    let mut current: Vec<char> = Vec::new();
    let mut i: usize = 0;
    assert(v@.take(0) =~= Seq::<char>::empty());
    while i < v.len()
        invariant
            0 <= i <= v.len(),
            pieces@.map_values(|p: Vec<char>| p@).push(current@) == comma_pieces(v@.take(i as int)),
        decreases v.len() - i,
    {
        let ghost before = pieces@.map_values(|p: Vec<char>| p@).push(current@);
        assert(v@.take(i + 1).drop_last() =~= v@.take(i as int));
        assert(v@.take(i + 1).last() == v@[i as int]);
        if v[i] == ',' {
            let done = current;
            pieces.push(done);
            current = Vec::new();
            assert(pieces@.map_values(|p: Vec<char>| p@).push(current@) =~= before.push(Seq::empty()));
        } else {
            current.push(v[i]);
            assert(pieces@.map_values(|p: Vec<char>| p@).push(current@) =~= before.update(
                before.len() - 1,
                before.last().push(v@[i as int]),
            ));
        }
        i += 1;
    }
    assert(v@.take(i as int) =~= v@);
    pieces.push(current);
    pieces
}


/// What `str::to_lowercase` returns for `s`: the Unicode lower-case mapping of
/// every character.
pub uninterp spec fn lowercased(s: Seq<char>) -> Seq<char>;

/// What `str::to_uppercase` returns for `s`: the Unicode upper-case mapping of
/// every character.
pub uninterp spec fn uppercased(s: Seq<char>) -> Seq<char>;

/// Whether every character of `s` is ASCII.
pub open spec fn all_ascii(s: Seq<char>) -> bool {
    forall|i: int| 0 <= i < s.len() ==> (#[trigger] s[i] as u32) < 128
}

/// ASCII letters map to upper case; every other character stays.
pub open spec fn ascii_upper(c: char) -> char {
    if 'a' <= c && c <= 'z' {
        ((c as u32) - 32) as char
    } else {
        c
    }
}

/// Calls `str::to_lowercase`; the result is named by `lowercased` and
/// depends on `s` alone. On ASCII text it lower-cases the ASCII letters one
/// for one (Unicode's lower-case mapping of an ASCII character is its ASCII
/// lower case); the mapping of other characters is left unsaid.
#[verifier::external_body]
pub fn to_lowercase_string(s: &str) -> (r: String)
    ensures
        r@ == lowercased(s@),
        all_ascii(s@) ==> r@ == s@.map_values(|c: char| ascii_lower(c)),
{
    s.to_lowercase()
}

/// Calls `str::to_uppercase`; the result is named by `uppercased` and
/// depends on `s` alone. On ASCII text it upper-cases the ASCII letters one
/// for one; the mapping of other characters is left unsaid.
#[verifier::external_body]
pub fn to_uppercase_string(s: &str) -> (r: String)
    ensures
        r@ == uppercased(s@),
        all_ascii(s@) ==> r@ == s@.map_values(|c: char| ascii_upper(c)),
{
    s.to_uppercase()
}


/// The first position at which `pat` occurs in `s`.
pub open spec fn find(s: Seq<char>, pat: Seq<char>) -> Option<int>
    decreases s.len(),
{
    if s.len() < pat.len() {
        None
    } else if s.take(pat.len() as int) == pat {
        Some(0)
    } else if s.len() == 0 {
        None
    } else {
        match find(s.skip(1), pat) {
            Some(i) => Some(i + 1),
            None => None,
        }
    }
}

pub proof fn lemma_find(s: Seq<char>, pat: Seq<char>)
    ensures
        find(s, pat) matches Some(i) ==> 0 <= i && i + pat.len() <= s.len() && s.subrange(
            i,
            i + pat.len(),
        ) == pat,
    decreases s.len(),
{
    if s.len() >= pat.len() && s.take(pat.len() as int) != pat && s.len() > 0 {
        lemma_find(s.skip(1), pat);
        if let Some(i) = find(s.skip(1), pat) {
            assert(s.subrange(i + 1, i + 1 + pat.len()) =~= s.skip(1).subrange(i, i + pat.len()));
        }
    }
    if s.len() >= pat.len() && s.take(pat.len() as int) == pat {
        assert(s.subrange(0, pat.len() as int) =~= s.take(pat.len() as int));
    }
}

/// The first position at or after `from` at which `pat` occurs in `v`.
pub fn find_chars(v: &Vec<char>, from: usize, pat: &Vec<char>) -> (r: Option<usize>)
    requires
        from <= v.len(),
    ensures
        match find(v@.skip(from as int), pat@) {
            Some(k) => r == Some((from + k) as usize),
            None => r is None,
        },
{
    let mut i = from;
    assert(v@.skip(from as int) =~= v@.skip(from as int));
    while i <= v.len()
        invariant
            from <= i,
            i <= v.len() + 1,
            i <= v.len() ==> find(v@.skip(from as int), pat@) == match find(v@.skip(i as int), pat@) {
                Some(k) => Some(k + (i - from)),
                None => None,
            },
            i > v.len() ==> find(v@.skip(from as int), pat@) is None,
        decreases v.len() + 1 - i,
    {
        let ghost t = v@.skip(i as int);
        if v.len() - i < pat.len() {
            assert(find(t, pat@) is None);
            return None;
        }
        let mut k: usize = 0;
        let mut same = true;
        while k < pat.len()
            invariant
                i + pat.len() <= v.len(),
                0 <= k <= pat.len(),
                same == forall|j: int| 0 <= j < k ==> v@[i + j] == pat@[j],
            decreases pat.len() - k,
        {
            if v[i + k] != pat[k] {
                same = false;
            }
            k += 1;
        }
        if same {
            assert(t.take(pat.len() as int) =~= pat@);
            return Some(i);
        }
        assert(t.take(pat.len() as int) != pat@) by {
            let j = choose|j: int| 0 <= j < pat.len() && v@[i + j] != pat@[j];
            assert(t.take(pat.len() as int)[j] == v@[i + j]);
        }
        if i == v.len() {
            assert(t.len() == 0);
            assert(find(t, pat@) is None);
            i += 1;
        } else {
            assert(t.skip(1) =~= v@.skip(i + 1));
            i += 1;
        }
    }
    None
}


/// The number of bytes `c` takes in UTF-8.
pub open spec fn utf8_width(c: char) -> nat {
    let u = c as u32;
    if u <= 0x7f {
        1
    } else if u <= 0x7ff {
        2
    } else if u <= 0xffff {
        3
    } else {
        4
    }
}

/// The number of bytes `s` takes in UTF-8.
pub open spec fn utf8_len(s: Seq<char>) -> nat
    decreases s.len(),
{
    if s.len() == 0 {
        0
    } else {
        utf8_width(s[0]) + utf8_len(s.drop_first())
    }
}

/// The longest prefix of `s` that fits in `max` bytes of UTF-8.
pub open spec fn utf8_prefix(s: Seq<char>, max: nat) -> Seq<char>
    decreases s.len(),
{
    if s.len() == 0 || utf8_width(s[0]) > max {
        Seq::empty()
    } else {
        seq![s[0]] + utf8_prefix(s.drop_first(), (max - utf8_width(s[0])) as nat)
    }
}

/// `utf8_len` is the length of vstd's UTF-8 encoding, the byte length
/// `str::len` reports.
pub proof fn lemma_utf8_len(s: Seq<char>)
    ensures
        utf8_len(s) == vstd::utf8::encode_utf8(s).len(),
    decreases s.len(),
{
    if s.len() > 0 {
        lemma_utf8_len(s.drop_first());
        vstd::utf8::char_is_scalar(s[0]);
    }
}

/// The prefix kept is a prefix of `s`, fits in `max` bytes, and is all of `s`
/// when `s` fits.
pub proof fn lemma_utf8_prefix(s: Seq<char>, max: nat)
    ensures
        utf8_prefix(s, max).len() <= s.len(),
        s.take(utf8_prefix(s, max).len() as int) == utf8_prefix(s, max),
        utf8_len(utf8_prefix(s, max)) <= max,
        utf8_len(s) <= max ==> utf8_prefix(s, max) == s,
    decreases s.len(),
{
    if s.len() > 0 && utf8_width(s[0]) <= max {
        let rest = utf8_prefix(s.drop_first(), (max - utf8_width(s[0])) as nat);
        lemma_utf8_prefix(s.drop_first(), (max - utf8_width(s[0])) as nat);
        let p = seq![s[0]] + rest;
        assert(p.drop_first() =~= rest);
        assert(s.take(p.len() as int) =~= p) by {
            assert forall|k: int| 0 <= k < p.len() implies s.take(p.len() as int)[k] == p[k] by {
                if k > 0 {
                    assert(s.drop_first().take(rest.len() as int)[k - 1] == rest[k - 1]);
                }
            }
        }
        if utf8_len(s) <= max {
            assert(p =~= s) by {
                assert(rest =~= s.drop_first());
            }
        }
    } else if s.len() > 0 {
        assert(s.take(0) =~= Seq::<char>::empty());
    } else {
        assert(s.take(0) =~= Seq::<char>::empty());
    }
}

fn char_width(c: char) -> (w: usize)
    ensures
        w == utf8_width(c),
{
    let u = c as u32;
    if u <= 0x7f {
        1
    } else if u <= 0x7ff {
        2
    } else if u <= 0xffff {
        3
    } else {
        4
    }
}

/// The longest prefix of `s` that fits in `max` bytes of UTF-8 (a cut never
/// splits a character).
pub fn utf8_truncated(s: &str, max: usize) -> (r: String)
    ensures
        r@ == utf8_prefix(s@, max as nat),
{
    let v = chars_of(s);
    let mut out: Vec<char> = Vec::new();
    let mut i: usize = 0;
    let mut room: usize = max;
    assert(v@.skip(0) =~= v@);
    while i < v.len()
        invariant
            v@ == s@,
            0 <= i <= v.len(),
            room <= max,
            utf8_prefix(s@, max as nat) == out@ + utf8_prefix(v@.skip(i as int), room as nat),
        decreases v.len() - i,
    {
        let w = char_width(v[i]);
        let ghost t = v@.skip(i as int);
        assert(t[0] == v@[i as int]);
        if w > room {
            assert(utf8_prefix(t, room as nat) =~= Seq::<char>::empty());
            assert(out@ + Seq::<char>::empty() =~= out@);
            return string_from_chars(&out);
        }
        assert(t.drop_first() =~= v@.skip(i + 1));
        out.push(v[i]);
        room = room - w;
        i += 1;
        assert(out@ + utf8_prefix(v@.skip(i as int), room as nat) =~= out@.drop_last() + (seq![
            v@[i - 1],
        ] + utf8_prefix(v@.skip(i as int), room as nat)));
    }
    assert(v@.skip(i as int) =~= Seq::<char>::empty());
    assert(out@ + Seq::<char>::empty() =~= out@);
    string_from_chars(&out)
}

/// Whether `a` and `b` hold the same characters.
pub fn same_text(a: &str, b: &str) -> (r: bool)
    ensures
        r == (a@ == b@),
{
    let va = chars_of(a);
    let vb = chars_of(b);
    if va.len() != vb.len() {
        return false;
    }
    let mut i: usize = 0;
    while i < va.len()
        invariant
            va@ == a@,
            vb@ == b@,
            va.len() == vb.len(),
            0 <= i <= va.len(),
            forall|j: int| 0 <= j < i ==> va@[j] == vb@[j],
        decreases va.len() - i,
    {
        if va[i] != vb[i] {
            return false;
        }
        i += 1;
    }
    assert(va@ =~= vb@);
    true
}

} // verus!
