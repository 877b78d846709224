//! HTML helpers for turning feed markup into Telegram-safe text.
use vstd::prelude::*;
use crate::utils::text::{
    ascii_lower, chars_of, decimal, format_decimal, is_ascii_alpha, is_ws, lemma_trim, slice_chars,
    string_from_chars, to_ascii_lower, trim, trim_chars,
};
use chrono::{Datelike, Timelike};

verus! {

/// `s` with every occurrence of `pat` replaced by `rep`, scanning left to right
/// without overlaps, as `str::replace` does for a non-empty pattern.
pub open spec fn replace_all(s: Seq<char>, pat: Seq<char>, rep: Seq<char>) -> Seq<char>
    decreases s.len(),
{
    if pat.len() == 0 || s.len() < pat.len() {
        s
    } else if s.take(pat.len() as int) == pat {
        rep + replace_all(s.skip(pat.len() as int), pat, rep)
    } else {
        seq![s[0]] + replace_all(s.skip(1), pat, rep)
    }
}

pub open spec fn amp_entity() -> Seq<char> {
    seq!['&', 'a', 'm', 'p', ';']
}

pub open spec fn lt_entity() -> Seq<char> {
    seq!['&', 'l', 't', ';']
}

pub open spec fn gt_entity() -> Seq<char> {
    seq!['&', 'g', 't', ';']
}

pub open spec fn quot_entity() -> Seq<char> {
    seq!['&', 'q', 'u', 'o', 't', ';']
}

pub open spec fn apos_entity() -> Seq<char> {
    seq!['&', '#', '3', '9', ';']
}

pub open spec fn nbsp_entity() -> Seq<char> {
    seq!['&', 'n', 'b', 's', 'p', ';']
}

/// The six standard entities decoded one after the other, in this order:
/// `&amp;`, `&lt;`, `&gt;`, `&quot;`, `&#39;`, `&nbsp;`.
pub open spec fn decoded_entities(s: Seq<char>) -> Seq<char> {
    let a = replace_all(s, amp_entity(), seq!['&']);
    let b = replace_all(a, lt_entity(), seq!['<']);
    let c = replace_all(b, gt_entity(), seq!['>']);
    let d = replace_all(c, quot_entity(), seq!['"']);
    let e = replace_all(d, apos_entity(), seq!['\'']);
    replace_all(e, nbsp_entity(), seq![' '])
}

fn matches_at(s: &Vec<char>, i: usize, pat: &Vec<char>) -> (b: bool)
    requires
        i + pat.len() <= s.len(),
    ensures
        b == (s@.subrange(i as int, i + pat.len()) == pat@),
{
    let mut k: usize = 0;
    while k < pat.len()
        invariant
            i + pat.len() <= s.len(),
            0 <= k <= pat.len(),
            forall|j: int| 0 <= j < k ==> s@[i + j] == pat@[j],
        decreases pat.len() - k,
    {
        if s[i + k] != pat[k] {
            assert(s@.subrange(i as int, i + pat.len())[k as int] != pat@[k as int]);
            return false;
        }
        k += 1;
    }
    assert(s@.subrange(i as int, i + pat.len()) =~= pat@);
    true
}

fn append_chars(out: &mut Vec<char>, extra: &Vec<char>)
    ensures
        final(out)@ == old(out)@ + extra@,
{
    let mut k: usize = 0;
    while k < extra.len()
        invariant
            0 <= k <= extra.len(),
            out@ == old(out)@ + extra@.take(k as int),
        decreases extra.len() - k,
    {
        out.push(extra[k]);
        k += 1;
        assert(out@ =~= old(out)@ + extra@.take(k as int));
    }
    assert(extra@.take(k as int) =~= extra@);
}

fn replace_chars(s: &Vec<char>, pat: &Vec<char>, rep: &Vec<char>) -> (r: Vec<char>)
    requires
        pat.len() > 0,
    ensures
        r@ == replace_all(s@, pat@, rep@),
{
    let mut out: Vec<char> = Vec::new();
    let mut i: usize = 0;
    assert(s@.skip(0) =~= s@);
    while i < s.len()
        invariant
            pat.len() > 0,
            0 <= i <= s.len(),
            out@ + replace_all(s@.skip(i as int), pat@, rep@) == replace_all(s@, pat@, rep@),
        decreases s.len() - i,
    {
        let ghost t = s@.skip(i as int);
        let ghost old_out = out@;
        if s.len() - i >= pat.len() && matches_at(s, i, pat) {
            assert(t.take(pat.len() as int) =~= s@.subrange(i as int, i + pat.len()));
            assert(t.skip(pat.len() as int) =~= s@.skip(i + pat.len()));
            append_chars(&mut out, rep);
            i += pat.len();
            assert(old_out + (rep@ + replace_all(s@.skip(i as int), pat@, rep@)) =~= out@
                + replace_all(s@.skip(i as int), pat@, rep@));
        } else {
            if s.len() - i >= pat.len() {
                assert(t.take(pat.len() as int) =~= s@.subrange(i as int, i + pat.len()));
            } else {
                assert(replace_all(t.skip(1), pat@, rep@) == t.skip(1));
                assert(seq![t[0]] + t.skip(1) =~= t);
            }
            assert(t.skip(1) =~= s@.skip(i + 1));
            out.push(s[i]);
            i += 1;
            assert(old_out + (seq![t[0]] + replace_all(s@.skip(i as int), pat@, rep@)) =~= out@
                + replace_all(s@.skip(i as int), pat@, rep@));
        }
    }
    assert(replace_all(s@.skip(i as int), pat@, rep@) =~= Seq::<char>::empty());
    assert(out@ + Seq::<char>::empty() =~= out@);
    out
}

fn decode_chars(s: &Vec<char>) -> (r: Vec<char>)
    ensures
        r@ == decoded_entities(s@),
{
    let p1 = vec!['&', 'a', 'm', 'p', ';'];
    let r1 = vec!['&'];
    let p2 = vec!['&', 'l', 't', ';'];
    let r2 = vec!['<'];
    let p3 = vec!['&', 'g', 't', ';'];
    let r3 = vec!['>'];
    let p4 = vec!['&', 'q', 'u', 'o', 't', ';'];
    let r4 = vec!['"'];
    let p5 = vec!['&', '#', '3', '9', ';'];
    let r5 = vec!['\''];
    let p6 = vec!['&', 'n', 'b', 's', 'p', ';'];
    let r6 = vec![' '];
    assert(p1@ =~= amp_entity() && r1@ =~= seq!['&']);
    assert(p2@ =~= lt_entity() && r2@ =~= seq!['<']);
    assert(p3@ =~= gt_entity() && r3@ =~= seq!['>']);
    assert(p4@ =~= quot_entity() && r4@ =~= seq!['"']);
    assert(p5@ =~= apos_entity() && r5@ =~= seq!['\'']);
    assert(p6@ =~= nbsp_entity() && r6@ =~= seq![' ']);
    let a = replace_chars(s, &p1, &r1);
    let b = replace_chars(&a, &p2, &r2);
    let c = replace_chars(&b, &p3, &r3);
    let d = replace_chars(&c, &p4, &r4);
    let e = replace_chars(&d, &p5, &r5);
    replace_chars(&e, &p6, &r6)
}

/// Decodes `&amp;`, `&lt;`, `&gt;`, `&quot;`, `&#39;` and `&nbsp;`, each in one
/// left-to-right pass, in that order.
pub fn decode_html_entities(s: &str) -> (r: String)
    ensures
        r@ == decoded_entities(s@),
{
    let v = chars_of(s);
    let d = decode_chars(&v);
    string_from_chars(&d)
}


/// What one character becomes under HTML escaping.
pub open spec fn escaped_char(c: char) -> Seq<char> {
    if c == '&' {
        amp_entity()
    } else if c == '<' {
        lt_entity()
    } else if c == '>' {
        gt_entity()
    } else {
        seq![c]
    }
}

/// `s` with `&`, `<` and `>` escaped, every other character kept.
pub open spec fn escaped(s: Seq<char>) -> Seq<char>
    decreases s.len(),
{
    if s.len() == 0 {
        Seq::empty()
    } else {
        escaped(s.drop_last()) + escaped_char(s.last())
    }
}

/// Escaped text holds no `<` or `>`, so it cannot open or close a tag, and
/// is no shorter than its input.
pub proof fn lemma_escaped_has_no_angle_brackets(s: Seq<char>)
    ensures
        !escaped(s).contains('<'),
        !escaped(s).contains('>'),
        escaped(s).len() >= s.len(),
    decreases s.len(),
{
    if s.len() > 0 {
        lemma_escaped_has_no_angle_brackets(s.drop_last());
        let a = escaped(s.drop_last());
        let b = escaped_char(s.last());
        assert(!b.contains('<') && !b.contains('>')) by {
            if b.contains('<') {
                let k = choose|k: int| 0 <= k < b.len() && b[k] == '<';
            }
            if b.contains('>') {
                let k = choose|k: int| 0 <= k < b.len() && b[k] == '>';
            }
        }
        assert forall|c: char| (a + b).contains(c) implies a.contains(c) || b.contains(c) by {
            let k = choose|k: int| 0 <= k < (a + b).len() && (a + b)[k] == c;
            if k < a.len() {
                assert(a[k] == c);
            } else {
                assert(b[k - a.len()] == c);
            }
        }
    }
}

spec fn mismatch_at(u: Seq<char>, pat: Seq<char>, i: int, k: int) -> bool {
    i + k < u.len() && u[i + k] != pat[k]
}

/// No occurrence of `pat` can start at position `i` of `u`, whatever follows `u`.
spec fn no_match_from(u: Seq<char>, pat: Seq<char>, i: int) -> bool {
    exists|k: int| 0 <= k < pat.len() && #[trigger] mismatch_at(u, pat, i, k)
}

/// No occurrence of `pat` can start inside `u`, whatever follows it.
spec fn no_match_in(u: Seq<char>, pat: Seq<char>) -> bool {
    forall|i: int| 0 <= i < u.len() ==> #[trigger] no_match_from(u, pat, i)
}

proof fn lemma_replace_unit(u: Seq<char>, v: Seq<char>, pat: Seq<char>, rep: Seq<char>)
    requires
        pat.len() > 0,
        no_match_in(u, pat),
    ensures
        replace_all(u + v, pat, rep) == u + replace_all(v, pat, rep),
    decreases u.len(),
{
    if u.len() == 0 {
        assert(u + v =~= v);
        assert(u + replace_all(v, pat, rep) =~= replace_all(v, pat, rep));
    } else {
        let w = u + v;
        assert(no_match_from(u, pat, 0));
        let k = choose|k: int| 0 <= k < pat.len() && #[trigger] mismatch_at(u, pat, 0, k);
        let t = u.skip(1);
        assert forall|i: int| 0 <= i < t.len() implies #[trigger] no_match_from(t, pat, i) by {
            assert(no_match_from(u, pat, i + 1));
            let k2 = choose|k: int| 0 <= k < pat.len() && #[trigger] mismatch_at(u, pat, i + 1, k);
            assert(mismatch_at(t, pat, i, k2));
        }
        lemma_replace_unit(t, v, pat, rep);
        assert(w.skip(1) =~= t + v);
        if w.len() < pat.len() {
            assert(replace_all(v, pat, rep) == v);
            assert(u + v =~= w);
        } else {
            assert(w.take(pat.len() as int)[k] == u[k]);
            assert(w.take(pat.len() as int) != pat);
            assert(seq![u[0]] + (t + replace_all(v, pat, rep)) =~= u + replace_all(v, pat, rep));
        }
    }
}

/// Text holding no `&` is left alone by replacing a pattern that starts with `&`.
proof fn lemma_replace_absent(x: Seq<char>, pat: Seq<char>, rep: Seq<char>)
    requires
        pat.len() > 0,
        pat[0] == '&',
        !x.contains('&'),
    ensures
        replace_all(x, pat, rep) == x,
    decreases x.len(),
{
    if x.len() >= pat.len() {
        assert(x.take(pat.len() as int)[0] == x[0]);
        assert(x.take(pat.len() as int) != pat);
        assert(!x.skip(1).contains('&')) by {
            if x.skip(1).contains('&') {
                let j = choose|j: int| 0 <= j < x.skip(1).len() && x.skip(1)[j] == '&';
                assert(x[j + 1] == '&');
            }
        }
        lemma_replace_absent(x.skip(1), pat, rep);
        assert(seq![x[0]] + x.skip(1) =~= x);
    }
}

proof fn lemma_escaped_cons(s: Seq<char>)
    requires
        s.len() > 0,
    ensures
        escaped(s) == escaped_char(s[0]) + escaped(s.skip(1)),
    decreases s.len(),
{
    if s.len() == 1 {
        assert(s.drop_last() =~= Seq::<char>::empty());
        assert(s.skip(1) =~= Seq::<char>::empty());
        assert(escaped_char(s[0]) + Seq::<char>::empty() =~= escaped_char(s[0]));
        assert(Seq::<char>::empty() + escaped_char(s[0]) =~= escaped_char(s[0]));
    } else {
        lemma_escaped_cons(s.drop_last());
        assert(s.drop_last().skip(1) =~= s.skip(1).drop_last());
        assert(s.skip(1).last() == s.last());
        assert(s.drop_last()[0] == s[0]);
        assert(escaped_char(s[0]) + escaped(s.drop_last().skip(1)) + escaped_char(s.last())
            =~= escaped_char(s[0]) + (escaped(s.skip(1).drop_last()) + escaped_char(s.skip(1).last())));
    }
}

/// `s` with only `>` escaped.
spec fn gt_escaped(s: Seq<char>) -> Seq<char>
    decreases s.len(),
{
    if s.len() == 0 {
        Seq::empty()
    } else {
        (if s[0] == '>' {
            gt_entity()
        } else {
            seq![s[0]]
        }) + gt_escaped(s.skip(1))
    }
}

proof fn lemma_skip_keeps_absent(s: Seq<char>, c: char)
    requires
        s.len() > 0,
        !s.contains(c),
    ensures
        !s.skip(1).contains(c),
{
    if s.skip(1).contains(c) {
        let j = choose|j: int| 0 <= j < s.skip(1).len() && s.skip(1)[j] == c;
        assert(s[j + 1] == c);
    }
}

proof fn lemma_single_no_match(c: char, pat: Seq<char>)
    requires
        pat.len() > 0,
        c != pat[0],
    ensures
        no_match_in(seq![c], pat),
{
    assert forall|i: int| 0 <= i < seq![c].len() implies #[trigger] no_match_from(seq![c], pat, i) by {
        assert(mismatch_at(seq![c], pat, 0, 0));
    }
}

/// An entity `&xy;` holds no match of a pattern `&ab...` with `x != a`.
proof fn lemma_entity_no_match(u: Seq<char>, pat: Seq<char>)
    requires
        u.len() == 4,
        pat.len() >= 2,
        u[0] == '&',
        pat[0] == '&',
        u[1] != pat[1],
        u[1] != '&' && u[2] != '&' && u[3] != '&',
    ensures
        no_match_in(u, pat),
{
    assert forall|i: int| 0 <= i < u.len() implies #[trigger] no_match_from(u, pat, i) by {
        if i == 0 {
            assert(mismatch_at(u, pat, 0, 1));
        } else {
            assert(mismatch_at(u, pat, i, 0));
        }
    }
}

proof fn lemma_unescape_amp(s: Seq<char>)
    requires
        !s.contains('&'),
    ensures
        replace_all(escaped(s), amp_entity(), seq!['&']) == escaped(s),
    decreases s.len(),
{
    if s.len() == 0 {
        assert(escaped(s) =~= Seq::<char>::empty());
    } else {
        lemma_escaped_cons(s);
        lemma_skip_keeps_absent(s, '&');
        lemma_unescape_amp(s.skip(1));
        let c = s[0];
        assert(c != '&');
        if c == '<' {
            lemma_entity_no_match(lt_entity(), amp_entity());
        } else if c == '>' {
            lemma_entity_no_match(gt_entity(), amp_entity());
        } else {
            lemma_single_no_match(c, amp_entity());
        }
        lemma_replace_unit(escaped_char(c), escaped(s.skip(1)), amp_entity(), seq!['&']);
    }
}

proof fn lemma_unescape_lt(s: Seq<char>)
    requires
        !s.contains('&'),
    ensures
        replace_all(escaped(s), lt_entity(), seq!['<']) == gt_escaped(s),
    decreases s.len(),
{
    if s.len() == 0 {
        assert(escaped(s) =~= Seq::<char>::empty());
    } else {
        lemma_escaped_cons(s);
        lemma_skip_keeps_absent(s, '&');
        lemma_unescape_lt(s.skip(1));
        let c = s[0];
        let rest = escaped(s.skip(1));
        assert(c != '&');
        if c == '<' {
            let w = lt_entity() + rest;
            assert(w.take(4) =~= lt_entity());
            assert(w.skip(4) =~= rest);
        } else if c == '>' {
            lemma_entity_no_match(gt_entity(), lt_entity());
            lemma_replace_unit(gt_entity(), rest, lt_entity(), seq!['<']);
        } else {
            lemma_single_no_match(c, lt_entity());
            lemma_replace_unit(seq![c], rest, lt_entity(), seq!['<']);
        }
    }
}

proof fn lemma_unescape_gt(s: Seq<char>)
    requires
        !s.contains('&'),
    ensures
        replace_all(gt_escaped(s), gt_entity(), seq!['>']) == s,
    decreases s.len(),
{
    if s.len() == 0 {
        assert(gt_escaped(s) =~= Seq::<char>::empty());
    } else {
        lemma_skip_keeps_absent(s, '&');
        lemma_unescape_gt(s.skip(1));
        let c = s[0];
        let rest = gt_escaped(s.skip(1));
        assert(c != '&');
        if c == '>' {
            let w = gt_entity() + rest;
            assert(w.take(4) =~= gt_entity());
            assert(w.skip(4) =~= rest);
        } else {
            lemma_single_no_match(c, gt_entity());
            lemma_replace_unit(seq![c], rest, gt_entity(), seq!['>']);
        }
        assert(seq![c] + s.skip(1) =~= s);
    }
}

/// For text without `&`, `decode_html_entities` undoes `escape_html`.
pub proof fn lemma_decode_undoes_escape(s: Seq<char>)
    requires
        !s.contains('&'),
    ensures
        decoded_entities(escaped(s)) == s,
{
    lemma_unescape_amp(s);
    lemma_unescape_lt(s);
    lemma_unescape_gt(s);
    lemma_replace_absent(s, quot_entity(), seq!['"']);
    lemma_replace_absent(s, apos_entity(), seq!['\'']);
    lemma_replace_absent(s, nbsp_entity(), seq![' ']);
}

fn escape_chars(s: &Vec<char>) -> (r: Vec<char>)
    ensures
        r@ == escaped(s@),
{
    let mut out: Vec<char> = Vec::new();
    let mut i: usize = 0;
    assert(s@.take(0) =~= Seq::<char>::empty());
    while i < s.len()
        invariant
            0 <= i <= s.len(),
            out@ == escaped(s@.take(i as int)),
        decreases s.len() - i,
    {
        let c = s[i];
        let ghost before = out@;
        if c == '&' {
            out.push('&');
            out.push('a');
            out.push('m');
            out.push('p');
            out.push(';');
        } else if c == '<' {
            out.push('&');
            out.push('l');
            out.push('t');
            out.push(';');
        } else if c == '>' {
            out.push('&');
            out.push('g');
            out.push('t');
            out.push(';');
        } else {
            out.push(c);
        }
        assert(out@ =~= before + escaped_char(c));
        assert(s@.take(i + 1).drop_last() =~= s@.take(i as int));
        i += 1;
    }
    assert(s@.take(i as int) =~= s@);
    out
}

/// Escapes `&`, `<` and `>` for Telegram's HTML parse mode.
pub fn escape_html(s: &str) -> (r: String)
    ensures
        r@ == escaped(s@),
{
    let v = chars_of(s);
    let e = escape_chars(&v);
    string_from_chars(&e)
}

/// Leading `/` characters removed.
pub open spec fn skip_slashes(s: Seq<char>) -> Seq<char>
    decreases s.len(),
{
    if s.len() > 0 && s[0] == '/' {
        skip_slashes(s.skip(1))
    } else {
        s
    }
}

/// Whether `c` is an ASCII letter or digit.
pub open spec fn is_ascii_alnum(c: char) -> bool {
    is_ascii_alpha(c) || ('0' <= c && c <= '9')
}

/// The longest prefix of `s` made of ASCII letters and digits.
pub open spec fn alnum_prefix(s: Seq<char>) -> Seq<char>
    decreases s.len(),
{
    if s.len() > 0 && is_ascii_alnum(s[0]) {
        seq![s[0]] + alnum_prefix(s.skip(1))
    } else {
        Seq::empty()
    }
}

/// The name of a tag from the text between `<` and `>`: trimmed, lower-cased
/// in ASCII, leading slashes dropped, then cut at the first character that is
/// neither a letter nor a digit (so the headings `h1` to `h6` keep their digit).
pub open spec fn tag_name(buf: Seq<char>) -> Seq<char> {
    alnum_prefix(skip_slashes(trim(buf).map_values(|c: char| ascii_lower(c))))
}

/// Tags after which the stripped text gets a line break.
pub open spec fn is_block_tag(name: Seq<char>) -> bool {
    ||| name == seq!['p']
    ||| name == seq!['b', 'r']
    ||| name == seq!['d', 'i', 'v']
    ||| name == seq!['l', 'i']
    ||| name == seq!['t', 'r']
    ||| name == seq!['h', '1']
    ||| name == seq!['h', '2']
    ||| name == seq!['h', '3']
    ||| name == seq!['h', '4']
    ||| name == seq!['h', '5']
    ||| name == seq!['h', '6']
}

/// The text of `s` outside tags, scanning from a state that is inside a tag
/// (`in_tag`) whose text so far is `buf`. A `<` opens a tag, a `>` closes an
/// open one and yields a line break when it closes a block tag; text of a tag
/// left open at the end is dropped.
pub open spec fn outside_tags(s: Seq<char>, in_tag: bool, buf: Seq<char>) -> Seq<char>
    decreases s.len(),
{
    if s.len() == 0 {
        Seq::empty()
    } else {
        let c = s[0];
        let rest = s.skip(1);
        if c == '<' {
            outside_tags(rest, true, Seq::empty())
        } else if c == '>' && in_tag {
            (if is_block_tag(tag_name(buf)) {
                seq!['\n']
            } else {
                Seq::<char>::empty()
            }) + outside_tags(rest, false, buf)
        } else if in_tag {
            outside_tags(rest, true, buf.push(c))
        } else {
            seq![c] + outside_tags(rest, false, buf)
        }
    }
}

proof fn lemma_scan_tag_text(t: Seq<char>, rest: Seq<char>, buf: Seq<char>)
    requires
        !t.contains('<'),
        !t.contains('>'),
    ensures
        outside_tags(t + rest, true, buf) == outside_tags(rest, true, buf + t),
    decreases t.len(),
{
    if t.len() == 0 {
        assert(t + rest =~= rest);
        assert(buf + t =~= buf);
    } else {
        let c = t[0];
        let u = t.skip(1);
        assert(!u.contains('<') && !u.contains('>')) by {
            if u.contains('<') {
                let k = choose|k: int| 0 <= k < u.len() && u[k] == '<';
                assert(t[k + 1] == '<');
            }
            if u.contains('>') {
                let k = choose|k: int| 0 <= k < u.len() && u[k] == '>';
                assert(t[k + 1] == '>');
            }
        }
        assert(c != '<' && c != '>') by {
            assert(t[0] == c);
        }
        assert((t + rest)[0] == c);
        assert((t + rest).skip(1) =~= u + rest);
        lemma_scan_tag_text(u, rest, buf.push(c));
        assert(buf.push(c) + u =~= buf + t);
    }
}

/// A tag closes with a line break exactly when its name is one of `p`,
/// `br`, `div`, `li`, `tr` or `h1` to `h6` (opening or closing tag alike,
/// whatever its attributes); any other tag leaves nothing behind.
pub proof fn lemma_tag_line_breaks(t: Seq<char>, rest: Seq<char>, buf: Seq<char>)
    requires
        !t.contains('<'),
        !t.contains('>'),
    ensures
        ({
            let n = tag_name(t);
            let block = n == seq!['p'] || n == seq!['b', 'r'] || n == seq!['d', 'i', 'v'] || n
                == seq!['l', 'i'] || n == seq!['t', 'r'] || n == seq!['h', '1'] || n == seq![
                'h',
                '2',
            ] || n == seq!['h', '3'] || n == seq!['h', '4'] || n == seq!['h', '5'] || n == seq![
                'h',
                '6',
            ];
            &&& block ==> outside_tags(seq!['<'] + t + seq!['>'] + rest, false, buf) == seq!['\n']
                + outside_tags(rest, false, t)
            &&& !block ==> outside_tags(seq!['<'] + t + seq!['>'] + rest, false, buf)
                == outside_tags(rest, false, t)
        }),
{
    let s = seq!['<'] + t + seq!['>'] + rest;
    assert(s[0] == '<');
    assert(s.skip(1) =~= t + (seq!['>'] + rest));
    lemma_scan_tag_text(t, seq!['>'] + rest, Seq::empty());
    assert(Seq::<char>::empty() + t =~= t);
    let r2 = seq!['>'] + rest;
    assert(r2[0] == '>');
    assert(r2.skip(1) =~= rest);
}

/// Whether `n` is a plain lower-case tag name: letters `a` to `z` and digits.
pub open spec fn plain_tag_name(n: Seq<char>) -> bool {
    &&& n.len() > 0
    &&& forall|i: int| 0 <= i < n.len() ==> ('a' <= #[trigger] n[i] <= 'z' || '0' <= n[i] <= '9')
}

proof fn lemma_alnum_prefix_whole(n: Seq<char>)
    requires
        forall|i: int| 0 <= i < n.len() ==> ('a' <= #[trigger] n[i] <= 'z' || '0' <= n[i] <= '9'),
    ensures
        alnum_prefix(n) == n,
    decreases n.len(),
{
    if n.len() > 0 {
        let u = n.skip(1);
        assert forall|i: int| 0 <= i < u.len() implies ('a' <= #[trigger] u[i] <= 'z' || '0' <= u[i]
            <= '9') by {
            assert(u[i] == n[i + 1]);
        }
        lemma_alnum_prefix_whole(u);
        assert(seq![n[0]] + u =~= n);
    }
}

/// The name of the tag `<n>` and of the closing tag `</n>` is `n`, for a
/// plain lower-case name `n`.
pub proof fn lemma_tag_name_plain(n: Seq<char>)
    requires
        plain_tag_name(n),
    ensures
        tag_name(n) == n,
        tag_name(seq!['/'] + n) == n,
{
    assert('a' <= n[0] <= 'z' || '0' <= n[0] <= '9');
    assert('a' <= n.last() <= 'z' || '0' <= n.last() <= '9') by {
        assert(n.last() == n[n.len() - 1]);
    }
    assert(!is_ws(n[0]));
    assert(!is_ws(n.last()));
    assert(trim(n) == n);
    let m = seq!['/'] + n;
    assert(m[0] == '/');
    assert(m.last() == n.last());
    assert(!is_ws(m[0]));
    assert(trim(m) == m);
    assert(n.map_values(|c: char| ascii_lower(c)) =~= n) by {
        assert forall|i: int| 0 <= i < n.len() implies ascii_lower(n[i]) == n[i] by {
            assert('a' <= n[i] <= 'z' || '0' <= n[i] <= '9');
        }
    }
    assert(m.map_values(|c: char| ascii_lower(c)) =~= m) by {
        assert forall|i: int| 0 <= i < m.len() implies ascii_lower(m[i]) == m[i] by {
            if i > 0 {
                assert(m[i] == n[i - 1]);
                assert('a' <= n[i - 1] <= 'z' || '0' <= n[i - 1] <= '9');
            }
        }
    }
    assert(n[0] != '/');
    assert(skip_slashes(n) == n);
    assert(m.skip(1) =~= n);
    assert(skip_slashes(m) == skip_slashes(n));
    lemma_alnum_prefix_whole(n);
}

/// Runs of more than two line breaks cut to two; `run` counts the line breaks
/// directly before `s`.
pub open spec fn collapsed_newlines(s: Seq<char>, run: nat) -> Seq<char>
    decreases s.len(),
{
    if s.len() == 0 {
        Seq::empty()
    } else if s[0] == '\n' {
        (if run + 1 <= 2 {
            seq!['\n']
        } else {
            Seq::<char>::empty()
        }) + collapsed_newlines(s.skip(1), run + 1)
    } else {
        seq![s[0]] + collapsed_newlines(s.skip(1), 0)
    }
}

/// Plain text of an HTML fragment: tags stripped, entities decoded, runs of
/// line breaks cut to two, surrounding whitespace trimmed.
pub open spec fn stripped_html(s: Seq<char>) -> Seq<char> {
    trim(collapsed_newlines(decoded_entities(trim(outside_tags(s, false, Seq::empty()))), 0))
}

/// Whether `s` holds no run of three line breaks.
pub open spec fn no_triple_newline(s: Seq<char>) -> bool {
    forall|i: int|
        0 <= i && i + 2 < s.len() ==> !(#[trigger] s[i] == '\n' && s[i + 1] == '\n' && s[i + 2]
            == '\n')
}

proof fn lemma_collapsed_newlines(s: Seq<char>, run: nat)
    ensures
        no_triple_newline(collapsed_newlines(s, run)),
        run >= 2 && collapsed_newlines(s, run).len() > 0 ==> collapsed_newlines(s, run)[0] != '\n',
        run == 1 && collapsed_newlines(s, run).len() > 1 ==> !(collapsed_newlines(s, run)[0]
            == '\n' && collapsed_newlines(s, run)[1] == '\n'),
    decreases s.len(),
{
    if s.len() > 0 {
        let c = collapsed_newlines(s, run);
        if s[0] == '\n' {
            let rest = collapsed_newlines(s.skip(1), run + 1);
            lemma_collapsed_newlines(s.skip(1), run + 1);
            if run + 1 <= 2 {
                assert(c =~= seq!['\n'] + rest);
                assert forall|i: int| 0 <= i && i + 2 < c.len() implies !(#[trigger] c[i] == '\n'
                    && c[i + 1] == '\n' && c[i + 2] == '\n') by {
                    if i > 0 {
                        assert(c[i] == rest[i - 1]);
                        assert(c[i + 1] == rest[i]);
                        assert(c[i + 2] == rest[i + 1]);
                    } else {
                        assert(c[1] == rest[0]);
                        assert(c[2] == rest[1]);
                    }
                }
                if run == 1 && c.len() > 1 {
                    assert(c[1] == rest[0]);
                }
            } else {
                assert(c =~= rest);
            }
        } else {
            let rest = collapsed_newlines(s.skip(1), 0);
            lemma_collapsed_newlines(s.skip(1), 0);
            assert(c =~= seq![s[0]] + rest);
            assert forall|i: int| 0 <= i && i + 2 < c.len() implies !(#[trigger] c[i] == '\n' && c[i
                + 1] == '\n' && c[i + 2] == '\n') by {
                if i > 0 {
                    assert(c[i] == rest[i - 1]);
                    assert(c[i + 1] == rest[i]);
                    assert(c[i + 2] == rest[i + 1]);
                }
            }
        }
    }
}

/// The plain text `strip_html_tags` returns never holds three line breaks
/// in a row and neither starts nor ends with whitespace.
pub proof fn lemma_stripped_shape(s: Seq<char>)
    ensures
        no_triple_newline(stripped_html(s)),
        stripped_html(s).len() > 0 ==> !is_ws(stripped_html(s)[0]) && !is_ws(
            stripped_html(s).last(),
        ),
{
    let c = collapsed_newlines(decoded_entities(trim(outside_tags(s, false, Seq::empty()))), 0);
    lemma_collapsed_newlines(decoded_entities(trim(outside_tags(s, false, Seq::empty()))), 0);
    lemma_trim(c);
    let (i, j) = choose|i: int, j: int| 0 <= i <= j <= c.len() && trim(c) == c.subrange(i, j);
    let t = trim(c);
    assert forall|k: int| 0 <= k && k + 2 < t.len() implies !(#[trigger] t[k] == '\n' && t[k + 1]
        == '\n' && t[k + 2] == '\n') by {
        assert(t[k] == c[i + k]);
        assert(t[k + 1] == c[i + k + 1]);
        assert(t[k + 2] == c[i + k + 2]);
    }
}

proof fn lemma_concat_absent(a: Seq<char>, b: Seq<char>, ch: char)
    requires
        !a.contains(ch),
        !b.contains(ch),
    ensures
        !(a + b).contains(ch),
{
    if (a + b).contains(ch) {
        let j = choose|j: int| 0 <= j < (a + b).len() && (a + b)[j] == ch;
        if j < a.len() {
            assert(a[j] == ch);
        } else {
            assert(b[j - a.len()] == ch);
        }
    }
}

/// For text without `&`, the text outside tags holds no `&` and no `<`:
/// every `<` opens a tag, so none is left in what the tag scan keeps.
pub proof fn lemma_outside_tags_clean(s: Seq<char>, in_tag: bool, buf: Seq<char>)
    requires
        !s.contains('&'),
    ensures
        !outside_tags(s, in_tag, buf).contains('&'),
        !outside_tags(s, in_tag, buf).contains('<'),
    decreases s.len(),
{
    if s.len() > 0 {
        let c = s[0];
        let rest = s.skip(1);
        lemma_skip_keeps_absent(s, '&');
        assert(c != '&');
        if c == '<' {
            lemma_outside_tags_clean(rest, true, Seq::empty());
        } else if c == '>' && in_tag {
            lemma_outside_tags_clean(rest, false, buf);
            let head = if is_block_tag(tag_name(buf)) {
                seq!['\n']
            } else {
                Seq::<char>::empty()
            };
            assert(!head.contains('&') && !head.contains('<')) by {
                if head.contains('&') || head.contains('<') {
                    let j = choose|j: int| 0 <= j < head.len() && (head[j] == '&' || head[j] == '<');
                }
            }
            lemma_concat_absent(head, outside_tags(rest, false, buf), '&');
            lemma_concat_absent(head, outside_tags(rest, false, buf), '<');
        } else if in_tag {
            lemma_outside_tags_clean(rest, true, buf.push(c));
        } else {
            lemma_outside_tags_clean(rest, false, buf);
            assert(!seq![c].contains('&') && !seq![c].contains('<')) by {
                if seq![c].contains('&') || seq![c].contains('<') {
                    let j = choose|j: int| 0 <= j < 1 && (seq![c][j] == '&' || seq![c][j] == '<');
                }
            }
            lemma_concat_absent(seq![c], outside_tags(rest, false, buf), '&');
            lemma_concat_absent(seq![c], outside_tags(rest, false, buf), '<');
        }
    }
}

proof fn lemma_outside_tags_identity(t: Seq<char>, buf: Seq<char>)
    requires
        !t.contains('<'),
    ensures
        outside_tags(t, false, buf) == t,
    decreases t.len(),
{
    if t.len() > 0 {
        lemma_skip_keeps_absent(t, '<');
        lemma_outside_tags_identity(t.skip(1), buf);
        assert(t[0] != '<');
        assert(seq![t[0]] + t.skip(1) =~= t);
    }
}

proof fn lemma_collapsed_absent(x: Seq<char>, run: nat, ch: char)
    requires
        !x.contains(ch),
    ensures
        !collapsed_newlines(x, run).contains(ch),
    decreases x.len(),
{
    if x.len() > 0 {
        lemma_skip_keeps_absent(x, ch);
        let head = seq![x[0]];
        assert(!head.contains(ch)) by {
            if head.contains(ch) {
                let j = choose|j: int| 0 <= j < head.len() && head[j] == ch;
            }
        }
        assert(!Seq::<char>::empty().contains(ch));
        if x[0] == '\n' {
            lemma_collapsed_absent(x.skip(1), run + 1, ch);
            if run + 1 <= 2 {
                lemma_concat_absent(head, collapsed_newlines(x.skip(1), run + 1), ch);
            } else {
                lemma_concat_absent(Seq::empty(), collapsed_newlines(x.skip(1), run + 1), ch);
            }
        } else {
            lemma_collapsed_absent(x.skip(1), 0, ch);
            lemma_concat_absent(head, collapsed_newlines(x.skip(1), 0), ch);
        }
    }
}

proof fn lemma_collapsed_identity(s: Seq<char>, run: nat)
    requires
        no_triple_newline(s),
        run <= 2,
        run == 2 && s.len() > 0 ==> s[0] != '\n',
        run == 1 && s.len() > 1 ==> !(s[0] == '\n' && s[1] == '\n'),
    ensures
        collapsed_newlines(s, run) == s,
    decreases s.len(),
{
    if s.len() > 0 {
        let t = s.skip(1);
        assert forall|i: int| 0 <= i && i + 2 < t.len() implies !(#[trigger] t[i] == '\n' && t[i + 1]
            == '\n' && t[i + 2] == '\n') by {
            assert(t[i] == s[i + 1] && t[i + 1] == s[i + 2] && t[i + 2] == s[i + 3]);
            assert(!(s[i + 1] == '\n' && s[i + 2] == '\n' && s[i + 3] == '\n'));
        }
        if s[0] == '\n' {
            if run == 0 && s.len() > 2 {
                assert(!(s[0] == '\n' && s[1] == '\n' && s[2] == '\n'));
            }
            lemma_collapsed_identity(t, run + 1);
        } else {
            lemma_collapsed_identity(t, 0);
        }
        assert(seq![s[0]] + t =~= s);
    }
}

proof fn lemma_trim_absent(x: Seq<char>, ch: char)
    requires
        !x.contains(ch),
    ensures
        !trim(x).contains(ch),
{
    lemma_trim(x);
    let (i, j) = choose|i: int, j: int| 0 <= i <= j <= x.len() && trim(x) == x.subrange(i, j);
    if trim(x).contains(ch) {
        let k = choose|k: int| 0 <= k < trim(x).len() && trim(x)[k] == ch;
        assert(x[i + k] == ch);
    }
}

proof fn lemma_trim_idempotent(x: Seq<char>)
    ensures
        trim(trim(x)) == trim(x),
{
    lemma_trim(x);
    let y = trim(x);
    assert(crate::utils::text::trim_start(y) == y);
    assert(crate::utils::text::trim_end(y) == y);
}

proof fn lemma_decode_absent(x: Seq<char>)
    requires
        !x.contains('&'),
    ensures
        decoded_entities(x) == x,
{
    lemma_replace_absent(x, amp_entity(), seq!['&']);
    lemma_replace_absent(x, lt_entity(), seq!['<']);
    lemma_replace_absent(x, gt_entity(), seq!['>']);
    lemma_replace_absent(x, quot_entity(), seq!['"']);
    lemma_replace_absent(x, apos_entity(), seq!['\'']);
    lemma_replace_absent(x, nbsp_entity(), seq![' ']);
}

/// For text without `&`, the stripped text holds no `&` and no `<`: no
/// markup is left in it.
pub proof fn lemma_stripped_has_no_markup(s: Seq<char>)
    requires
        !s.contains('&'),
    ensures
        !stripped_html(s).contains('&'),
        !stripped_html(s).contains('<'),
{
    let o = outside_tags(s, false, Seq::empty());
    lemma_outside_tags_clean(s, false, Seq::empty());
    let t1 = trim(o);
    lemma_trim_absent(o, '&');
    lemma_trim_absent(o, '<');
    lemma_decode_absent(t1);
    let c = collapsed_newlines(t1, 0);
    lemma_collapsed_absent(t1, 0, '&');
    lemma_collapsed_absent(t1, 0, '<');
    lemma_trim_absent(c, '&');
    lemma_trim_absent(c, '<');
}

/// For text without `&`, stripping tags twice gives what stripping once
/// gives.
pub proof fn lemma_strip_idempotent(s: Seq<char>)
    requires
        !s.contains('&'),
    ensures
        stripped_html(stripped_html(s)) == stripped_html(s),
{
    let o = outside_tags(s, false, Seq::empty());
    lemma_outside_tags_clean(s, false, Seq::empty());
    let t1 = trim(o);
    lemma_trim_absent(o, '&');
    lemma_trim_absent(o, '<');
    lemma_decode_absent(t1);
    let c = collapsed_newlines(t1, 0);
    lemma_collapsed_absent(t1, 0, '&');
    lemma_collapsed_absent(t1, 0, '<');
    let t = trim(c);
    lemma_trim_absent(c, '&');
    lemma_trim_absent(c, '<');
    assert(stripped_html(s) == t);
    lemma_outside_tags_identity(t, Seq::empty());
    lemma_trim_idempotent(c);
    lemma_decode_absent(t);
    lemma_stripped_shape(s);
    lemma_collapsed_identity(t, 0);
}

fn map_ascii_lower(v: &Vec<char>) -> (r: Vec<char>)
    ensures
        r@ == v@.map_values(|c: char| ascii_lower(c)),
{
    let mut r: Vec<char> = Vec::new();
    let mut i: usize = 0;
    while i < v.len()
        invariant
            0 <= i <= v.len(),
            r@ == v@.take(i as int).map_values(|c: char| ascii_lower(c)),
        decreases v.len() - i,
    {
        r.push(to_ascii_lower(v[i]));
        i += 1;
        assert(r@ =~= v@.take(i as int).map_values(|c: char| ascii_lower(c)));
    }
    assert(v@.take(i as int) =~= v@);
    r
}

fn is_ascii_letter_or_digit(c: char) -> (b: bool)
    ensures
        b == is_ascii_alnum(c),
{
    ('a' <= c && c <= 'z') || ('A' <= c && c <= 'Z') || ('0' <= c && c <= '9')
}

fn tag_name_chars(buf: &Vec<char>) -> (r: Vec<char>)
    ensures
        r@ == tag_name(buf@),
{
    let t = trim_chars(buf);
    let l = map_ascii_lower(&t);
    let mut i: usize = 0;
    assert(l@.skip(0) =~= l@);
    while i < l.len() && l[i] == '/'
        invariant
            0 <= i <= l.len(),
            skip_slashes(l@) == skip_slashes(l@.skip(i as int)),
        decreases l.len() - i,
    {
        assert(l@.skip(i as int).skip(1) =~= l@.skip(i + 1));
        i += 1;
    }
    let ghost rest = l@.skip(i as int);
    assert(skip_slashes(l@) == rest);
    let start = i;
    while i < l.len() && is_ascii_letter_or_digit(l[i])
        invariant
            start <= i <= l.len(),
            rest == l@.skip(start as int),
            alnum_prefix(rest) == l@.subrange(start as int, i as int) + alnum_prefix(
                l@.skip(i as int),
            ),
        decreases l.len() - i,
    {
        assert(l@.skip(i as int).skip(1) =~= l@.skip(i + 1));
        assert(l@.subrange(start as int, i as int) + (seq![l@[i as int]] + alnum_prefix(
            l@.skip(i + 1),
        )) =~= l@.subrange(start as int, i + 1) + alnum_prefix(l@.skip(i + 1)));
        i += 1;
    }
    assert(alnum_prefix(l@.skip(i as int)) =~= Seq::<char>::empty());
    assert(l@.subrange(start as int, i as int) + Seq::<char>::empty() =~= l@.subrange(
        start as int,
        i as int,
    ));
    slice_chars(&l, start, i)
}

fn seq_is(v: &Vec<char>, w: &Vec<char>) -> (b: bool)
    ensures
        b == (v@ == w@),
{
    if v.len() != w.len() {
        return false;
    }
    let mut i: usize = 0;
    while i < v.len()
        invariant
            v.len() == w.len(),
            0 <= i <= v.len(),
            forall|j: int| 0 <= j < i ==> v@[j] == w@[j],
        decreases v.len() - i,
    {
        if v[i] != w[i] {
            return false;
        }
        i += 1;
    }
    assert(v@ =~= w@);
    true
}

fn block_tag(name: &Vec<char>) -> (b: bool)
    ensures
        b == is_block_tag(name@),
{
    let p = vec!['p'];
    let br = vec!['b', 'r'];
    let div = vec!['d', 'i', 'v'];
    let li = vec!['l', 'i'];
    let tr = vec!['t', 'r'];
    let h1 = vec!['h', '1'];
    let h2 = vec!['h', '2'];
    let h3 = vec!['h', '3'];
    let h4 = vec!['h', '4'];
    let h5 = vec!['h', '5'];
    let h6 = vec!['h', '6'];
    assert(p@ =~= seq!['p'] && br@ =~= seq!['b', 'r'] && div@ =~= seq!['d', 'i', 'v']);
    assert(li@ =~= seq!['l', 'i'] && tr@ =~= seq!['t', 'r']);
    assert(h1@ =~= seq!['h', '1'] && h2@ =~= seq!['h', '2'] && h3@ =~= seq!['h', '3']);
    assert(h4@ =~= seq!['h', '4'] && h5@ =~= seq!['h', '5'] && h6@ =~= seq!['h', '6']);
    seq_is(name, &p) || seq_is(name, &br) || seq_is(name, &div) || seq_is(name, &li) || seq_is(
        name,
        &tr,
    ) || seq_is(name, &h1) || seq_is(name, &h2) || seq_is(name, &h3) || seq_is(name, &h4)
        || seq_is(name, &h5) || seq_is(name, &h6)
}

fn outside_tags_chars(s: &Vec<char>) -> (r: Vec<char>)
    ensures
        r@ == outside_tags(s@, false, Seq::empty()),
{
    let mut out: Vec<char> = Vec::new();
    let mut in_tag = false;
    let mut buf: Vec<char> = Vec::new();
    let mut i: usize = 0;
    assert(s@.skip(0) =~= s@);
    while i < s.len()
        invariant
            0 <= i <= s.len(),
            out@ + outside_tags(s@.skip(i as int), in_tag, buf@) == outside_tags(
                s@,
                false,
                Seq::empty(),
            ),
        decreases s.len() - i,
    {
        let ghost t = s@.skip(i as int);
        let ghost old_out = out@;
        assert(t.skip(1) =~= s@.skip(i + 1));
        let ch = s[i];
        if ch == '<' {
            in_tag = true;
            buf = Vec::new();
            assert(buf@ =~= Seq::<char>::empty());
        } else if ch == '>' && in_tag {
            in_tag = false;
            let name = tag_name_chars(&buf);
            if block_tag(&name) {
                out.push('\n');
                assert(old_out + (seq!['\n'] + outside_tags(s@.skip(i + 1), false, buf@))
                    =~= out@ + outside_tags(s@.skip(i + 1), false, buf@));
            } else {
                assert(Seq::<char>::empty() + outside_tags(s@.skip(i + 1), false, buf@)
                    =~= outside_tags(s@.skip(i + 1), false, buf@));
            }
        } else if in_tag {
            buf.push(ch);
        } else {
            out.push(ch);
            assert(old_out + (seq![ch] + outside_tags(s@.skip(i + 1), false, buf@)) =~= out@
                + outside_tags(s@.skip(i + 1), false, buf@));
        }
        i += 1;
    }
    assert(out@ + Seq::<char>::empty() =~= out@);
    out
}

fn collapse_chars(s: &Vec<char>) -> (r: Vec<char>)
    ensures
        r@ == collapsed_newlines(s@, 0),
{
    let mut out: Vec<char> = Vec::new();
    let mut run: usize = 0;
    let mut i: usize = 0;
    assert(s@.skip(0) =~= s@);
    while i < s.len()
        invariant
            0 <= i <= s.len(),
            run <= i,
            out@ + collapsed_newlines(s@.skip(i as int), run as nat) == collapsed_newlines(
                s@,
                0,
            ),
        decreases s.len() - i,
    {
        let ghost t = s@.skip(i as int);
        let ghost old_out = out@;
        assert(t.skip(1) =~= s@.skip(i + 1));
        let ch = s[i];
        if ch == '\n' {
            run += 1;
            if run <= 2 {
                out.push(ch);
                assert(old_out + (seq!['\n'] + collapsed_newlines(s@.skip(i + 1), run as nat))
                    =~= out@ + collapsed_newlines(s@.skip(i + 1), run as nat));
            } else {
                assert(Seq::<char>::empty() + collapsed_newlines(s@.skip(i + 1), run as nat)
                    =~= collapsed_newlines(s@.skip(i + 1), run as nat));
            }
        } else {
            run = 0;
            out.push(ch);
            assert(old_out + (seq![ch] + collapsed_newlines(s@.skip(i + 1), 0)) =~= out@
                + collapsed_newlines(s@.skip(i + 1), 0));
        }
        i += 1;
    }
    assert(out@ + Seq::<char>::empty() =~= out@);
    out
}

/// Strips all HTML tags from `s`, turning block-level tags into line breaks,
/// then decodes entities, cuts runs of line breaks to two and trims.
pub fn strip_html_tags(s: &str) -> (r: String)
    ensures
        r@ == stripped_html(s@),
{
    let v = chars_of(s);
    let outside = outside_tags_chars(&v);
    let trimmed = trim_chars(&outside);
    let decoded = decode_chars(&trimmed);
    let collapsed = collapse_chars(&decoded);
    let clean = trim_chars(&collapsed);
    string_from_chars(&clean)
}

/// The position of the last `c` in `s`, if any.
pub open spec fn last_index_of(s: Seq<char>, c: char) -> Option<int>
    decreases s.len(),
{
    if s.len() == 0 {
        None
    } else if s.last() == c {
        Some(s.len() - 1)
    } else {
        last_index_of(s.drop_last(), c)
    }
}

/// The first `max_chars` characters of `s`, cut back to just before an `&`
/// that the kept part leaves without a closing `;`; `s` whole when it is short
/// enough.
pub open spec fn truncated_html(s: Seq<char>, max_chars: nat) -> Seq<char> {
    if s.len() <= max_chars {
        s
    } else {
        let head = s.take(max_chars as int);
        match last_index_of(head, '&') {
            Some(a) => if head.skip(a).contains(';') {
                head
            } else {
                s.take(a)
            },
            None => head,
        }
    }
}

proof fn lemma_last_index_of(s: Seq<char>, c: char)
    ensures
        last_index_of(s, c) matches Some(a) ==> 0 <= a < s.len() && s[a] == c && !s.skip(a
            + 1).contains(c),
    decreases s.len(),
{
    if s.len() > 0 && s.last() != c {
        lemma_last_index_of(s.drop_last(), c);
        if let Some(a) = last_index_of(s, c) {
            let t = s.skip(a + 1);
            if t.contains(c) {
                let k = choose|k: int| 0 <= k < t.len() && t[k] == c;
                if k < t.len() - 1 {
                    assert(s.drop_last().skip(a + 1)[k] == c);
                }
            }
        }
    }
}

/// `truncate_html_safe` keeps at most `max_chars` characters, keeps a
/// prefix of its input, and keeps the input whole when it fits.
pub proof fn lemma_truncated_html(s: Seq<char>, max_chars: nat)
    ensures
        truncated_html(s, max_chars).len() <= max_chars,
        truncated_html(s, max_chars) == s.take(truncated_html(s, max_chars).len() as int),
        s.len() <= max_chars ==> truncated_html(s, max_chars) == s,
{
    if s.len() <= max_chars {
        assert(s.take(s.len() as int) =~= s);
    } else {
        let head = s.take(max_chars as int);
        lemma_last_index_of(head, '&');
        match last_index_of(head, '&') {
            Some(a) => {
                if !head.skip(a).contains(';') {
                    assert(s.take(a).len() == a);
                    assert(s.take(a).take(a) =~= s.take(a));
                }
            },
            None => {},
        }
    }
}

fn last_amp(v: &Vec<char>, end: usize) -> (r: Option<usize>)
    requires
        end <= v.len(),
    ensures
        r matches Some(a) ==> a < end,
        match last_index_of(v@.take(end as int), '&') {
            Some(a) => r == Some(a as usize),
            None => r is None,
        },
{
    proof {
        lemma_last_index_of(v@.take(end as int), '&');
    }
    let mut j = end;
    while j > 0
        invariant
            j <= end <= v.len(),
            last_index_of(v@.take(end as int), '&') == last_index_of(v@.take(j as int), '&'),
        decreases j,
    {
        assert(v@.take(j as int).last() == v@[j - 1]);
        if v[j - 1] == '&' {
            return Some(j - 1);
        }
        assert(v@.take(j as int).drop_last() =~= v@.take(j - 1));
        j -= 1;
    }
    None
}

fn has_semicolon(v: &Vec<char>, from: usize, end: usize) -> (b: bool)
    requires
        from <= end <= v.len(),
    ensures
        b == v@.take(end as int).skip(from as int).contains(';'),
{
    let ghost t = v@.take(end as int).skip(from as int);
    let mut k = from;
    while k < end
        invariant
            from <= k <= end <= v.len(),
            t == v@.take(end as int).skip(from as int),
            forall|j: int| from <= j < k ==> v@[j] != ';',
        decreases end - k,
    {
        if v[k] == ';' {
            assert(t[k - from] == ';');
            return true;
        }
        k += 1;
    }
    assert forall|j: int| 0 <= j < t.len() implies t[j] != ';' by {
        assert(t[j] == v@[from + j]);
    }
    false
}

/// Truncates `s` to at most `max_chars` characters without splitting an HTML
/// entity: a cut inside `&...;` backs up to just before the `&`.
pub fn truncate_html_safe(s: &str, max_chars: usize) -> (r: String)
    ensures
        r@ == truncated_html(s@, max_chars as nat),
{
    let v = chars_of(s);
    if v.len() <= max_chars {
        return string_from_chars(&v);
    }
    let mut end = max_chars;
    let amp = last_amp(&v, max_chars);
    match amp {
        Some(a) => {
            if !has_semicolon(&v, a, max_chars) {
                end = a;
            }
        },
        None => {},
    }
    let kept = slice_chars(&v, 0, end);
    proof {
        let head = s@.take(max_chars as int);
        lemma_last_index_of(head, '&');
        assert(v@.subrange(0, end as int) =~= s@.take(end as int));
        match last_index_of(head, '&') {
            Some(a) => {
                assert(amp == Some(a as usize));
                if head.skip(a).contains(';') {
                    assert(end == max_chars);
                } else {
                    assert(end == a);
                }
            },
            None => {
                assert(end == max_chars);
            },
        }
    }
    string_from_chars(&kept)
}


/// The year, month, day, hour and minute that chrono reads from an RFC 2822
/// timestamp, in the timestamp's own offset; `None` when chrono refuses it.
pub uninterp spec fn rfc2822_fields(text: Seq<char>) -> Option<(i32, u32, u32, u32, u32)>;

/// Calls `chrono::DateTime::parse_from_rfc2822` and, on success, reads the
/// year, month, day, hour and minute of the parsed time as
/// `Datelike`/`Timelike` report them (in the timestamp's own offset). The
/// contract claims only that the result is a function of `text`, named by
/// `rfc2822_fields`.
#[verifier::external_body]
fn parse_rfc2822(text: &str) -> (r: Option<(i32, u32, u32, u32, u32)>)
    ensures
        r == rfc2822_fields(text@),
{
    match chrono::DateTime::parse_from_rfc2822(text) {
        Ok(dt) => Some((dt.year(), dt.month(), dt.day(), dt.hour(), dt.minute())),
        Err(_) => None,
    }
}

/// `n` in decimal, zero-padded on the left to at least `width` digits.
pub open spec fn zero_padded(n: nat, width: nat) -> Seq<char> {
    let d = decimal(n);
    if d.len() >= width {
        d
    } else {
        Seq::new((width - d.len()) as nat, |i: int| '0') + d
    }
}

/// A year as `%Y` writes it: four digits within 0..=9999, and with an
/// explicit sign outside that range.
pub open spec fn year_text(y: int) -> Seq<char> {
    if 0 <= y <= 9999 {
        zero_padded(y as nat, 4)
    } else if y > 9999 {
        seq!['+'] + zero_padded(y as nat, 4)
    } else {
        seq!['-'] + zero_padded((-y) as nat, 4)
    }
}

/// The fields written as `YYYY-MM-DD HH:MM UTC`.
pub open spec fn date_text(f: (i32, u32, u32, u32, u32)) -> Seq<char> {
    year_text(f.0 as int) + "-"@ + zero_padded(f.1 as nat, 2) + "-"@ + zero_padded(f.2 as nat, 2)
        + " "@ + zero_padded(f.3 as nat, 2) + ":"@ + zero_padded(f.4 as nat, 2) + " UTC"@
}

/// What `format_pub_date` shows for `text`, given the fields read from it:
/// the formatted date, or `text` unchanged when it could not be read.
pub open spec fn pub_date_text(text: Seq<char>, fields: Option<(i32, u32, u32, u32, u32)>) -> Seq<
    char,
> {
    match fields {
        Some(f) => date_text(f),
        None => text,
    }
}

fn zero_padded_string(n: u64, width: usize) -> (s: String)
    ensures
        s@ == zero_padded(n as nat, width as nat),
{
    let digits = format_decimal(n);
    let d = chars_of(digits.as_str());
    if d.len() >= width {
        return digits;
    }
    let mut v: Vec<char> = Vec::new();
    let pad = width - d.len();
    while v.len() < pad
        invariant
            pad == width - d.len(),
            v.len() <= pad,
            forall|i: int| 0 <= i < v.len() ==> v@[i] == '0',
        decreases pad - v.len(),
    {
        v.push('0');
    }
    let mut i: usize = 0;
    while i < d.len()
        invariant
            0 <= i <= d.len(),
            v@ == Seq::new(pad as nat, |k: int| '0') + d@.take(i as int),
        decreases d.len() - i,
    {
        v.push(d[i]);
        i += 1;
        assert(v@ =~= Seq::new(pad as nat, |k: int| '0') + d@.take(i as int));
    }
    assert(d@.take(i as int) =~= d@);
    string_from_chars(&v)
}

fn year_string(y: i32) -> (s: String)
    ensures
        s@ == year_text(y as int),
{
    if 0 <= y && y <= 9999 {
        zero_padded_string(y as u64, 4)
    } else if y > 9999 {
        let mut s = "+".to_owned();
        proof {
            reveal_strlit("+");
        }
        let digits = zero_padded_string(y as u64, 4);
        s.append(digits.as_str());
        s
    } else {
        let mut s = "-".to_owned();
        proof {
            reveal_strlit("-");
        }
        let magnitude = (-(y as i64)) as u64;
        let digits = zero_padded_string(magnitude, 4);
        s.append(digits.as_str());
        s
    }
}

/// Writes the fields read from `text`, or gives `text` back when there are none.
pub fn format_parsed_date(text: &str, fields: Option<(i32, u32, u32, u32, u32)>) -> (r: String)
    ensures
        r@ == pub_date_text(text@, fields),
{
    match fields {
        None => text.to_owned(),
        Some((year, month, day, hour, minute)) => {
            let mut s = year_string(year);
            s.append("-");
            let m = zero_padded_string(month as u64, 2);
            s.append(m.as_str());
            s.append("-");
            let d = zero_padded_string(day as u64, 2);
            s.append(d.as_str());
            s.append(" ");
            let h = zero_padded_string(hour as u64, 2);
            s.append(h.as_str());
            s.append(":");
            let mi = zero_padded_string(minute as u64, 2);
            s.append(mi.as_str());
            s.append(" UTC");
            s
        },
    }
}

/// An RFC 2822 timestamp as `YYYY-MM-DD HH:MM UTC`, or unchanged when it
/// does not parse.
pub fn format_pub_date(rfc2822: &str) -> (r: String)
    ensures
        r@ == pub_date_text(rfc2822@, rfc2822_fields(rfc2822@)),
{
    let fields = parse_rfc2822(rfc2822);
    format_parsed_date(rfc2822, fields)
}

} // verus!
