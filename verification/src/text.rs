use vstd::prelude::*;

verus! {

/// Lexicographic order on character sequences, by code point. This is the
/// order in which the engine's string-keyed maps hold their keys.
pub open spec fn lex_lt(a: Seq<char>, b: Seq<char>) -> bool
    decreases a.len(),
{
    if a.len() == 0 {
        b.len() > 0
    } else if b.len() == 0 {
        false
    } else if (a[0] as int) < (b[0] as int) {
        true
    } else if a[0] == b[0] {
        lex_lt(a.drop_first(), b.drop_first())
    } else {
        false
    }
}

/// The characters of a string slice, as a vector.
pub fn chars_of(s: &str) -> (out: Vec<char>)
    ensures
        out@ == s@,
{
    let mut out: Vec<char> = Vec::new();
    let n = s.unicode_len();
    let mut i: usize = 0;
    while i < n
        invariant
            n == s@.len(),
            i <= n,
            out@ == s@.take(i as int),
        decreases n - i,
    {
        let c = s.get_char(i);
        out.push(c);
        i = i + 1;
        assert(out@ =~= s@.take(i as int));
    }
    assert(s@.take(n as int) =~= s@);
    out
}

/// Appends one character to a string.
#[verifier::external_body]
fn push_char(s: &mut String, c: char)
    ensures
        final(s)@ == old(s)@.push(c),
{
    s.push(c);
}

/// Builds a string from its characters.
pub fn string_from_chars(cs: &Vec<char>) -> (out: String)
    ensures
        out@ == cs@,
{
    let mut out = String::new();
    let mut i: usize = 0;
    while i < cs.len()
        invariant
            i <= cs.len(),
            out@ == cs@.take(i as int),
        decreases cs.len() - i,
    {
        push_char(&mut out, cs[i]);
        i = i + 1;
        assert(out@ =~= cs@.take(i as int));
    }
    assert(cs@.take(cs.len() as int) =~= cs@);
    out
}

pub fn chars_lt(a: &Vec<char>, b: &Vec<char>) -> (r: bool)
    ensures r == lex_lt(a@, b@),
{
    let mut i: usize = 0;
    assert(a@.skip(0) =~= a@);
    assert(b@.skip(0) =~= b@);
    while i < a.len() && i < b.len()
        invariant
            i <= a.len(), i <= b.len(),
            a@.take(i as int) == b@.take(i as int),
            lex_lt(a@, b@) == lex_lt(a@.skip(i as int), b@.skip(i as int)),
        decreases a.len() - i,
    {
        let x = a[i];
        let y = b[i];
        if x < y {
            return true;
        }
        if x != y {
            return false;
        }
        proof {
            assert(a@.skip(i as int).drop_first() =~= a@.skip(i + 1));
            assert(b@.skip(i as int).drop_first() =~= b@.skip(i + 1));
            assert(a@.take(i + 1) =~= a@.take(i as int).push(x));
            assert(b@.take(i + 1) =~= b@.take(i as int).push(y));
        }
        i = i + 1;
    }
    i < b.len()
}


pub proof fn lemma_lex_irrefl(a: Seq<char>)
    ensures
        !lex_lt(a, a),
    decreases a.len(),
{
    if a.len() > 0 {
        lemma_lex_irrefl(a.drop_first());
    }
}

pub proof fn lemma_lex_asym(a: Seq<char>, b: Seq<char>)
    ensures
        lex_lt(a, b) ==> !lex_lt(b, a),
    decreases a.len(),
{
    if a.len() > 0 && b.len() > 0 && a[0] == b[0] {
        lemma_lex_asym(a.drop_first(), b.drop_first());
    }
}

pub proof fn lemma_lex_trans(a: Seq<char>, b: Seq<char>, c: Seq<char>)
    ensures
        lex_lt(a, b) && lex_lt(b, c) ==> lex_lt(a, c),
    decreases a.len(),
{
    if a.len() > 0 && b.len() > 0 && c.len() > 0 {
        lemma_lex_trans(a.drop_first(), b.drop_first(), c.drop_first());
    }
}

pub proof fn lemma_lex_total(a: Seq<char>, b: Seq<char>)
    ensures
        a != b ==> lex_lt(a, b) || lex_lt(b, a),
    decreases a.len(),
{
    if a.len() > 0 && b.len() > 0 {
        lemma_lex_total(a.drop_first(), b.drop_first());
        if a[0] == b[0] && a.drop_first() == b.drop_first() {
            assert(a =~= seq![a[0]] + a.drop_first());
            assert(b =~= seq![b[0]] + b.drop_first());
        }
    } else if a.len() == 0 && b.len() == 0 {
        assert(a =~= b);
    }
}

/// Whether two character vectors hold the same characters.
pub fn chars_eq(a: &Vec<char>, b: &Vec<char>) -> (r: bool)
    ensures
        r == (a@ == b@),
{
    if a.len() != b.len() {
        return false;
    }
    let mut i: usize = 0;
    while i < a.len()
        invariant
            a.len() == b.len(),
            i <= a.len(),
            forall|j: int| 0 <= j < i ==> a@[j] == b@[j],
        decreases a.len() - i,
    {
        if a[i] != b[i] {
            return false;
        }
        i = i + 1;
    }
    assert(a@ =~= b@);
    true
}

/// Whether `s` begins with `p`.
pub open spec fn seq_starts_with(s: Seq<char>, p: Seq<char>) -> bool {
    p.len() <= s.len() && s.take(p.len() as int) == p
}

/// `s` with every occurrence of `p` replaced by `r`, scanning left to right
/// without overlaps (the behaviour of `str::replace` for a non-empty pattern).
pub open spec fn replace_all(s: Seq<char>, p: Seq<char>, r: Seq<char>) -> Seq<char>
    decreases s.len(),
{
    if s.len() == 0 {
        s
    } else if p.len() > 0 && seq_starts_with(s, p) {
        r + replace_all(s.skip(p.len() as int), p, r)
    } else {
        seq![s[0]] + replace_all(s.drop_first(), p, r)
    }
}

/// Whether `p` occurs at position `i` of `s`.
pub fn matches_at(s: &Vec<char>, i: usize, p: &Vec<char>) -> (r: bool)
    requires
        i <= s.len(),
    ensures
        r == seq_starts_with(s@.skip(i as int), p@),
{
    if p.len() > s.len() - i {
        return false;
    }
    let mut j: usize = 0;
    while j < p.len()
        invariant
            i + p.len() <= s.len(),
            j <= p.len(),
            forall|k: int| 0 <= k < j ==> s@[i + k] == p@[k],
        decreases p.len() - j,
    {
        if s[i + j] != p[j] {
            assert(s@.skip(i as int).take(p.len() as int)[j as int] == s@[i + j]);
            return false;
        }
        j = j + 1;
    }
    assert(s@.skip(i as int).take(p.len() as int) =~= p@);
    true
}

/// Appends every character of `src` to `dst`.
pub fn append_chars(dst: &mut Vec<char>, src: &Vec<char>)
    ensures
        final(dst)@ == old(dst)@ + src@,
{
    let mut i: usize = 0;
    let ghost start = dst@;
    while i < src.len()
        invariant
            i <= src.len(),
            dst@ == start + src@.take(i as int),
        decreases src.len() - i,
    {
        dst.push(src[i]);
        i = i + 1;
        assert(dst@ =~= start + src@.take(i as int));
    }
    assert(src@.take(src.len() as int) =~= src@);
}

/// Concatenation of two character vectors.
pub fn concat_chars(a: &Vec<char>, b: &Vec<char>) -> (r: Vec<char>)
    ensures
        r@ == a@ + b@,
{
    let mut r = a.clone();
    assert(r@ == a@);
    append_chars(&mut r, b);
    r
}

/// Replaces every non-overlapping occurrence of `p` in `s` by `r`.
pub fn replace_all_chars(s: &Vec<char>, p: &Vec<char>, r: &Vec<char>) -> (out: Vec<char>)
    requires
        p.len() > 0,
    ensures
        out@ == replace_all(s@, p@, r@),
{
    let mut out: Vec<char> = Vec::new();
    let mut i: usize = 0;
    assert(s@.skip(0) =~= s@);
    while i < s.len()
        invariant
            p.len() > 0,
            i <= s.len(),
            out@ + replace_all(s@.skip(i as int), p@, r@) == replace_all(s@, p@, r@),
        decreases s.len() - i,
    {
        let ghost rest = s@.skip(i as int);
        if matches_at(s, i, p) {
            append_chars(&mut out, r);
            proof {
                assert(rest.skip(p.len() as int) =~= s@.skip(i + p.len()));
            }
            i = i + p.len();
        } else {
            out.push(s[i]);
            proof {
                assert(rest.drop_first() =~= s@.skip(i + 1));
                assert(rest[0] == s@[i as int]);
            }
            i = i + 1;
        }
    }
    assert(s@.skip(s.len() as int) =~= Seq::<char>::empty());
    assert(out@ + Seq::<char>::empty() =~= out@);
    out
}

/// Whether two string slices hold the same characters.
pub fn str_eq(a: &str, b: &str) -> (r: bool)
    ensures
        r == (a@ == b@),
{
    chars_eq(&chars_of(a), &chars_of(b))
}

/// An owned copy of a string slice.
pub fn string_of(s: &str) -> (r: String)
    ensures
        r@ == s@,
{
    string_from_chars(&chars_of(s))
}

/// Two string slices, one after the other.
pub fn cat(a: &str, b: &str) -> (r: String)
    ensures
        r@ == a@ + b@,
{
    string_from_chars(&concat_chars(&chars_of(a), &chars_of(b)))
}

/// The characters of `a`, then `sep`, then `b`.
pub fn join3(a: &Vec<char>, sep: &Vec<char>, b: &Vec<char>) -> (r: Vec<char>)
    ensures
        r@ == a@ + sep@ + b@,
{
    concat_chars(&concat_chars(a, sep), b)
}

/// The two-character separator `::` that joins the parts of composite keys.
pub open spec fn key_sep() -> Seq<char> {
    seq![':', ':']
}

pub fn key_sep_chars() -> (r: Vec<char>)
    ensures
        r@ == key_sep(),
{
    let r: Vec<char> = vec![':', ':'];
    assert(r@ =~= key_sep());
    r
}

/// `a::b` as a character vector.
pub fn join_key(a: &str, b: &str) -> (r: Vec<char>)
    ensures
        r@ == a@ + key_sep() + b@,
{
    join3(&chars_of(a), &key_sep_chars(), &chars_of(b))
}

/// Decimal text of an unsigned number.
pub open spec fn nat_text(n: nat) -> Seq<char>
    decreases n,
{
    if n < 10 {
        seq![digit_char(n)]
    } else {
        nat_text(n / 10).push(digit_char(n % 10))
    }
}

pub open spec fn digit_char(d: nat) -> char {
    if d == 0 { '0' } else if d == 1 { '1' } else if d == 2 { '2' } else if d == 3 { '3' }
    else if d == 4 { '4' } else if d == 5 { '5' } else if d == 6 { '6' } else if d == 7 { '7' }
    else if d == 8 { '8' } else { '9' }
}

/// Decimal text of a signed number, with a leading `-` when negative.
pub open spec fn int_text(n: int) -> Seq<char> {
    if n < 0 { seq!['-'] + nat_text((-n) as nat) } else { nat_text(n as nat) }
}

fn digit(d: u64) -> (c: char)
    requires
        d < 10,
    ensures
        c == digit_char(d as nat),
{
    if d == 0 { '0' } else if d == 1 { '1' } else if d == 2 { '2' } else if d == 3 { '3' }
    else if d == 4 { '4' } else if d == 5 { '5' } else if d == 6 { '6' } else if d == 7 { '7' }
    else if d == 8 { '8' } else { '9' }
}

/// Decimal digits of `n`.
pub fn u64_chars(n: u64) -> (r: Vec<char>)
    ensures
        r@ == nat_text(n as nat),
    decreases n,
{
    if n < 10 {
        let r: Vec<char> = vec![digit(n)];
        assert(r@ =~= nat_text(n as nat));
        r
    } else {
        let mut r = u64_chars(n / 10);
        r.push(digit(n % 10));
        r
    }
}

/// Decimal text of a signed number.
pub fn i64_chars(n: i64) -> (r: Vec<char>)
    ensures
        r@ == int_text(n as int),
{
    if n < 0 {
        let mag: u64 = if n == i64::MIN { 0x8000_0000_0000_0000u64 } else { (-n) as u64 };
        let digits = u64_chars(mag);
        let minus: Vec<char> = vec!['-'];
        let r = concat_chars(&minus, &digits);
        assert(r@ =~= int_text(n as int));
        r
    } else {
        u64_chars(n as u64)
    }
}

pub proof fn lemma_map_values_push<A, B>(s: Seq<A>, x: A, f: spec_fn(A) -> B)
    ensures
        s.push(x).map_values(f) == s.map_values(f).push(f(x)),
{
    assert(s.push(x).map_values(f) =~= s.map_values(f).push(f(x)));
}

pub proof fn lemma_take_push<A>(s: Seq<A>, i: int)
    requires
        0 <= i < s.len(),
    ensures
        s.take(i + 1) == s.take(i).push(s[i]),
{
    assert(s.take(i + 1) =~= s.take(i).push(s[i]));
}

/// Unicode white space, as `char::is_whitespace` counts it.
pub open spec fn is_white_space(c: char) -> bool {
    ('\u{9}' <= c && c <= '\u{d}') || c == ' ' || c == '\u{85}' || c == '\u{a0}' || c == '\u{1680}'
        || ('\u{2000}' <= c && c <= '\u{200a}') || c == '\u{2028}' || c == '\u{2029}' || c == '\u{202f}'
        || c == '\u{205f}' || c == '\u{3000}'
}

/// Whether a text is empty once white space is trimmed from both ends.
pub open spec fn is_blank(s: Seq<char>) -> bool {
    forall|i: int| 0 <= i < s.len() ==> is_white_space(#[trigger] s[i])
}

pub fn char_is_white_space(c: char) -> (r: bool)
    ensures
        r == is_white_space(c),
{
    ('\u{9}' <= c && c <= '\u{d}') || c == ' ' || c == '\u{85}' || c == '\u{a0}' || c == '\u{1680}'
        || ('\u{2000}' <= c && c <= '\u{200a}') || c == '\u{2028}' || c == '\u{2029}' || c == '\u{202f}'
        || c == '\u{205f}' || c == '\u{3000}'
}

/// Whether a text is only white space.
pub fn text_is_blank(s: &str) -> (r: bool)
    ensures
        r == is_blank(s@),
{
    let cs = chars_of(s);
    let mut i: usize = 0;
    while i < cs.len()
        invariant
            cs@ == s@,
            i <= cs.len(),
            forall|j: int| 0 <= j < i ==> is_white_space(#[trigger] cs@[j]),
        decreases cs.len() - i,
    {
        if !char_is_white_space(cs[i]) {
            return false;
        }
        i = i + 1;
    }
    true
}

/// `{name}` for a placeholder name.
pub open spec fn placeholder(name: Seq<char>) -> Seq<char> {
    seq!['{'] + name + seq!['}']
}

/// The texts of placeholder names and their values.
pub open spec fn pair_views(pairs: Seq<(&str, &str)>) -> Seq<(Seq<char>, Seq<char>)> {
    pairs.map_values(|p: (&str, &str)| (p.0@, p.1@))
}

/// The template with the first `n` placeholders filled in, in order.
pub open spec fn fill_template(t: Seq<char>, pairs: Seq<(Seq<char>, Seq<char>)>, n: int) -> Seq<char>
    decreases n,
{
    if n <= 0 {
        t
    } else {
        replace_all(fill_template(t, pairs, n - 1), placeholder(pairs[n - 1].0), pairs[n - 1].1)
    }
}

/// Fills each `{name}` placeholder of a template with its value, taking the
/// pairs in order.
pub fn fill_placeholders(template: &str, pairs: &[(&str, &str)]) -> (r: String)
    ensures
        r@ == fill_template(template@, pair_views(pairs@), pairs@.len() as int),
{
    let mut out = chars_of(template);
    let mut i: usize = 0;
    while i < pairs.len()
        invariant
            i <= pairs@.len(),
            out@ == fill_template(template@, pair_views(pairs@), i as int),
        decreases pairs.len() - i,
    {
        let (name, value) = pairs[i];
        let open_brace: Vec<char> = vec!['{'];
        let close_brace: Vec<char> = vec!['}'];
        let pattern = join3(&open_brace, &chars_of(name), &close_brace);
        assert(pattern@ =~= placeholder(name@));
        out = replace_all_chars(&out, &pattern, &chars_of(value));
        i = i + 1;
    }
    string_from_chars(&out)
}


/// The text without its leading white space.
pub open spec fn trim_start(s: Seq<char>) -> Seq<char>
    decreases s.len(),
{
    if s.len() > 0 && is_white_space(s[0]) { trim_start(s.drop_first()) } else { s }
}

/// The text without its trailing white space.
pub open spec fn trim_end(s: Seq<char>) -> Seq<char>
    decreases s.len(),
{
    if s.len() > 0 && is_white_space(s.last()) { trim_end(s.drop_last()) } else { s }
}

/// The text without white space at either end, as `str::trim` gives it.
pub open spec fn trim(s: Seq<char>) -> Seq<char> {
    trim_end(trim_start(s))
}

/// A character with ASCII capitals made small, as `to_ascii_lowercase` does.
pub open spec fn ascii_lower(c: char) -> char {
    if 'A' <= c && c <= 'Z' { ((c as u32) + 32) as char } else { c }
}

pub open spec fn ascii_lowercase(s: Seq<char>) -> Seq<char> {
    s.map_values(|c: char| ascii_lower(c))
}

/// The characters of a text without white space at either end.
pub fn trim_chars(s: &str) -> (r: Vec<char>)
    ensures
        r@ == trim(s@),
{
    let cs = chars_of(s);
    let mut i: usize = 0;
    assert(cs@.skip(0) =~= cs@);
    while i < cs.len() && char_is_white_space(cs[i])
        invariant
            cs@ == s@,
            i <= cs.len(),
            trim_start(cs@) == trim_start(cs@.skip(i as int)),
        decreases cs.len() - i,
    {
        assert(cs@.skip(i as int).drop_first() =~= cs@.skip(i + 1));
        i = i + 1;
    }
    assert(trim_start(cs@.skip(i as int)) == cs@.skip(i as int));
    let mut j: usize = cs.len();
    while j > i && char_is_white_space(cs[j - 1])
        invariant
            i <= j <= cs.len(),
            trim_end(cs@.skip(i as int)) == trim_end(cs@.subrange(i as int, j as int)),
        decreases j,
    {
        assert(cs@.subrange(i as int, j as int).drop_last() =~= cs@.subrange(i as int, j - 1));
        j = j - 1;
    }
    assert(cs@.skip(i as int) =~= cs@.subrange(i as int, cs.len() as int));
    let mut r: Vec<char> = Vec::new();
    let mut k: usize = i;
    while k < j
        invariant
            i <= k <= j,
            j <= cs.len(),
            r@ == cs@.subrange(i as int, k as int),
        decreases j - k,
    {
        r.push(cs[k]);
        k = k + 1;
        assert(r@ =~= cs@.subrange(i as int, k as int));
    }
    assert(trim_end(cs@.subrange(i as int, j as int)) == cs@.subrange(i as int, j as int));
    r
}

pub fn lower_char(c: char) -> (r: char)
    ensures
        r == ascii_lower(c),
{
    if 'A' <= c && c <= 'Z' {
        let code: u8 = (c as u8) + 32;
        code as char
    } else {
        c
    }
}


/// `r` before, between and after the first `n` characters of `s`.
pub open spec fn interleave_upto(s: Seq<char>, r: Seq<char>, n: int) -> Seq<char>
    decreases n,
{
    if n <= 0 { r } else { interleave_upto(s, r, n - 1) + seq![s[n - 1]] + r }
}

/// `s` with every occurrence of `p` replaced by `r`, as `str::replace` does
/// it: an empty pattern matches before, between and after every character.
pub open spec fn str_replace(s: Seq<char>, p: Seq<char>, r: Seq<char>) -> Seq<char> {
    if p.len() == 0 { interleave_upto(s, r, s.len() as int) } else { replace_all(s, p, r) }
}

pub fn replace_text(s: &Vec<char>, p: &Vec<char>, r: &Vec<char>) -> (out: Vec<char>)
    ensures
        out@ == str_replace(s@, p@, r@),
{
    if p.len() > 0 {
        return replace_all_chars(s, p, r);
    }
    let mut out = concat_chars(&Vec::new(), r);
    assert(out@ =~= r@);
    let mut i: usize = 0;
    while i < s.len()
        invariant
            i <= s.len(),
            out@ == interleave_upto(s@, r@, i as int),
        decreases s.len() - i,
    {
        out.push(s[i]);
        append_chars(&mut out, r);
        i = i + 1;
        assert(out@ =~= interleave_upto(s@, r@, i as int));
    }
    out
}

} // verus!
