//! Character-level text utilities shared by the parser, the macro expander
//! and the environment store: scanning, splitting, joining, replacing and
//! integer formatting, all specified over `Seq<char>`.

use vstd::prelude::*;

verus! {

/// Relies on `String::push`: appends the character to the end of the string.
pub assume_specification[ String::push ](s: &mut String, c: char)
    ensures
        final(s)@ == old(s)@.push(c),
;

/// A class of characters that a scan runs over.
#[derive(Clone, Copy)]
pub enum CharClass {
    /// Whitespace: space, tab, carriage return, newline.
    Wsp,
    /// Anything but whitespace.
    NonWsp,
    /// Anything but the given character.
    NotChar(char),
    /// A character that may appear in an unquoted shell word: anything but
    /// space, `|`, `>`, `<`, `&`.
    WordChar,
}

/// Whether `c` is one of the four whitespace characters the shell recognises.
pub open spec fn is_wsp(c: char) -> bool {
    c == ' ' || c == '\t' || c == '\r' || c == '\n'
}

/// Whether `c` belongs to the class `cl`.
pub open spec fn in_class(cl: CharClass, c: char) -> bool {
    match cl {
        CharClass::Wsp => is_wsp(c),
        CharClass::NonWsp => !is_wsp(c),
        CharClass::NotChar(x) => c != x,
        CharClass::WordChar => c != ' ' && c != '|' && c != '>' && c != '<' && c != '&',
    }
}

/// The first position at or after `i` whose character falls outside `cl`
/// (or the end of `s`).
pub open spec fn scan(s: Seq<char>, i: int, cl: CharClass) -> int
    decreases s.len() - i,
    when 0 <= i <= s.len()
{
    if i < s.len() && in_class(cl, s[i]) {
        scan(s, i + 1, cl)
    } else {
        i
    }
}

/// The scan result stays within bounds, every character it passed over is in
/// the class, and the character it stopped on (if any) is not.
pub proof fn lemma_scan(s: Seq<char>, i: int, cl: CharClass)
    requires
        0 <= i <= s.len(),
    ensures
        i <= scan(s, i, cl) <= s.len(),
        forall|k: int| i <= k < scan(s, i, cl) ==> in_class(cl, #[trigger] s[k]),
        scan(s, i, cl) < s.len() ==> !in_class(cl, s[scan(s, i, cl)]),
    decreases s.len() - i,
{
    if i < s.len() && in_class(cl, s[i]) {
        lemma_scan(s, i + 1, cl);
    }
}

/// Whether `c` belongs to the class `cl`, decided at run time.
pub fn in_class_exec(cl: CharClass, c: char) -> (r: bool)
    ensures
        r == in_class(cl, c),
{
    match cl {
        CharClass::Wsp => c == ' ' || c == '\t' || c == '\r' || c == '\n',
        CharClass::NonWsp => !(c == ' ' || c == '\t' || c == '\r' || c == '\n'),
        CharClass::NotChar(x) => c != x,
        CharClass::WordChar => c != ' ' && c != '|' && c != '>' && c != '<' && c != '&',
    }
}

/// Scans forward from `i` while the characters stay in `cl`; returns where
/// the scan stopped.
pub fn scan_exec(s: &Vec<char>, i: usize, cl: CharClass) -> (r: usize)
    requires
        i <= s@.len(),
    ensures
        r as int == scan(s@, i as int, cl),
        i <= r <= s@.len(),
{
    let mut j: usize = i;
    while j < s.len() && in_class_exec(cl, s[j])
        invariant
            i <= j <= s@.len(),
            scan(s@, i as int, cl) == scan(s@, j as int, cl),
        decreases s@.len() - j,
    {
        j = j + 1;
    }
    proof {
        lemma_scan(s@, i as int, cl);
    }
    j
}

/// The characters of `s`, as a vector.
pub fn to_chars(s: &str) -> (r: Vec<char>)
    ensures
        r@ == s@,
{
    let n = s.unicode_len();
    let mut r: Vec<char> = Vec::new();
    let mut i: usize = 0;
    while i < n
        invariant
            i <= n,
            n == s@.len(),
            r@ == s@.take(i as int),
        decreases n - i,
    {
        let c = s.get_char(i);
        r.push(c);
        proof {
            assert(r@ =~= s@.take(i + 1int));
        }
        i = i + 1;
    }
    proof {
        assert(s@.take(n as int) =~= s@);
    }
    r
}

/// A string holding exactly the characters of `v`.
pub fn chars_to_string(v: &Vec<char>) -> (r: String)
    ensures
        r@ == v@,
{
    let mut r = String::new();
    let mut i: usize = 0;
    while i < v.len()
        invariant
            i <= v@.len(),
            r@ == v@.take(i as int),
        decreases v@.len() - i,
    {
        r.push(v[i]);
        proof {
            assert(r@ =~= v@.take(i + 1int));
        }
        i = i + 1;
    }
    proof {
        assert(v@.take(v@.len() as int) =~= v@);
    }
    r
}

/// A string holding the characters `v[from..to]`.
pub fn chars_to_string_range(v: &Vec<char>, from: usize, to: usize) -> (r: String)
    requires
        from <= to <= v@.len(),
    ensures
        r@ == v@.subrange(from as int, to as int),
{
    let mut r = String::new();
    let mut i: usize = from;
    while i < to
        invariant
            from <= i <= to <= v@.len(),
            r@ == v@.subrange(from as int, i as int),
        decreases to - i,
    {
        r.push(v[i]);
        proof {
            assert(r@ =~= v@.subrange(from as int, i + 1int));
        }
        i = i + 1;
    }
    r
}

/// Whether two string slices hold the same characters.
pub fn str_eq(a: &str, b: &str) -> (r: bool)
    ensures
        r == (a@ == b@),
{
    let la = a.unicode_len();
    let lb = b.unicode_len();
    if la != lb {
        return false;
    }
    let mut i: usize = 0;
    while i < la
        invariant
            i <= la,
            la == a@.len(),
            la == b@.len(),
            forall|k: int| 0 <= k < i ==> a@[k] == b@[k],
        decreases la - i,
    {
        if a.get_char(i) != b.get_char(i) {
            return false;
        }
        i = i + 1;
    }
    proof {
        assert(a@ =~= b@);
    }
    true
}

/// The decimal digit character for `d`.
pub open spec fn spec_digit(d: int) -> char {
    if d == 0 {
        '0'
    } else if d == 1 {
        '1'
    } else if d == 2 {
        '2'
    } else if d == 3 {
        '3'
    } else if d == 4 {
        '4'
    } else if d == 5 {
        '5'
    } else if d == 6 {
        '6'
    } else if d == 7 {
        '7'
    } else if d == 8 {
        '8'
    } else {
        '9'
    }
}

/// The usual decimal rendering of a nonnegative integer, most significant
/// digit first, without leading zeros (except for 0 itself).
pub open spec fn spec_u64_digits(n: int) -> Seq<char>
    decreases n,
    when n >= 0
{
    if n < 10 {
        seq![spec_digit(n)]
    } else {
        spec_u64_digits(n / 10).push(spec_digit(n % 10))
    }
}

fn digit_char(d: u64) -> (c: char)
    requires
        d < 10,
    ensures
        c == spec_digit(d as int),
{
    match d {
        0 => '0',
        1 => '1',
        2 => '2',
        3 => '3',
        4 => '4',
        5 => '5',
        6 => '6',
        7 => '7',
        8 => '8',
        _ => '9',
    }
}

fn push_u64_digits(n: u64, out: &mut String)
    ensures
        final(out)@ == old(out)@ + spec_u64_digits(n as int),
    decreases n,
{
    if n < 10 {
        out.push(digit_char(n));
        proof {
            assert(out@ =~= old(out)@ + spec_u64_digits(n as int));
        }
    } else {
        push_u64_digits(n / 10, out);
        out.push(digit_char(n % 10));
        proof {
            assert(out@ =~= old(out)@ + spec_u64_digits(n as int));
        }
    }
}

/// The decimal rendering of `n`.
pub fn u64_to_string(n: u64) -> (r: String)
    ensures
        r@ == spec_u64_digits(n as int),
{
    let mut r = String::new();
    push_u64_digits(n, &mut r);
    proof {
        assert(r@ =~= spec_u64_digits(n as int));
    }
    r
}

/// The decimal rendering of a signed number: a minus sign for negative
/// values, then the digits of the magnitude.
pub open spec fn spec_i32_digits(n: int) -> Seq<char> {
    if n < 0 {
        seq!['-'] + spec_u64_digits(-n)
    } else {
        spec_u64_digits(n)
    }
}

/// The decimal rendering of `n`, with a sign when negative.
pub fn i32_to_string(n: i32) -> (r: String)
    ensures
        r@ == spec_i32_digits(n as int),
{
    if n < 0 {
        let mag: u64 = (-(n as i64)) as u64;
        let mut r = String::new();
        r.push('-');
        push_u64_digits(mag, &mut r);
        proof {
            assert(r@ =~= spec_i32_digits(n as int));
        }
        r
    } else {
        u64_to_string(n as u64)
    }
}

/// Whether `c` is a decimal digit.
pub open spec fn is_digit(c: char) -> bool {
    '0' <= c <= '9'
}

/// The numeric value of the digit character `c`.
pub open spec fn digit_val(c: char) -> int {
    c as int - '0' as int
}

/// The number denoted by a sequence of decimal digits (most significant
/// first); 0 for the empty sequence.
pub open spec fn spec_digits_value(s: Seq<char>) -> int
    decreases s.len(),
{
    if s.len() == 0 {
        0
    } else {
        spec_digits_value(s.drop_last()) * 10 + digit_val(s.last())
    }
}

/// What `str::parse::<usize>` accepts: an optional leading `+`, then at
/// least one digit, nothing else.
pub open spec fn spec_usize_shape(s: Seq<char>) -> bool {
    if s.len() > 0 && s[0] == '+' {
        s.len() > 1 && (forall|k: int| 1 <= k < s.len() ==> is_digit(#[trigger] s[k]))
    } else {
        s.len() > 0 && (forall|k: int| 0 <= k < s.len() ==> is_digit(#[trigger] s[k]))
    }
}

/// The digit part of such an input (with any leading `+` removed).
pub open spec fn spec_usize_digits(s: Seq<char>) -> Seq<char> {
    if s.len() > 0 && s[0] == '+' {
        s.drop_first()
    } else {
        s
    }
}

proof fn lemma_digits_value_nonneg(s: Seq<char>)
    requires
        forall|k: int| 0 <= k < s.len() ==> is_digit(#[trigger] s[k]),
    ensures
        spec_digits_value(s) >= 0,
    decreases s.len(),
{
    if s.len() > 0 {
        lemma_digits_value_nonneg(s.drop_last());
    }
}

/// The number a decimal string denotes, as `str::parse::<usize>` reads it:
/// `Some` exactly when the input has the right shape and the value fits.
pub fn parse_usize(s: &str) -> (r: Option<usize>)
    ensures
        match r {
            Some(v) => spec_usize_shape(s@) && v as int == spec_digits_value(
                spec_usize_digits(s@),
            ),
            None => !spec_usize_shape(s@) || spec_digits_value(spec_usize_digits(s@))
                > usize::MAX,
        },
{
    let v = to_chars(s);
    let start: usize = if v.len() > 0 && v[0] == '+' {
        1
    } else {
        0
    };
    if v.len() == start {
        return None;
    }
    let ghost digits = spec_usize_digits(s@);
    proof {
        if start == 1 {
            assert(digits =~= v@.subrange(1int, v@.len() as int));
        } else {
            assert(digits =~= v@.subrange(0int, v@.len() as int));
        }
    }
    let mut acc: usize = 0;
    let mut i: usize = start;
    while i < v.len()
        invariant
            start <= i <= v@.len(),
            v@ == s@,
            digits == spec_usize_digits(s@),
            digits =~= v@.subrange(start as int, v@.len() as int),
            forall|k: int| start <= k < i ==> is_digit(#[trigger] v@[k]),
            acc as int == spec_digits_value(v@.subrange(start as int, i as int)),
        decreases v@.len() - i,
    {
        let c = v[i];
        if !('0' <= c && c <= '9') {
            return None;
        }
        let d: usize = (c as u32 as usize) - ('0' as u32 as usize);
        proof {
            assert(v@.subrange(start as int, i + 1int).drop_last() =~= v@.subrange(
                start as int,
                i as int,
            ));
            assert(v@.subrange(start as int, i + 1int).last() == c);
        }
        if acc > (usize::MAX - d) / 10 {
            proof {
                if spec_usize_shape(s@) {
                    assert(forall|k: int|
                        (start as int) <= k < v@.len() ==> is_digit(#[trigger] v@[k]));
                    lemma_tail_value_grows(v@, start as int, i as int);
                    assert(acc * 10 + d > usize::MAX) by (nonlinear_arith)
                        requires
                            acc > (usize::MAX - d) / 10,
                            0 <= d < 10,
                            acc >= 0,
                    ;
                }
            }
            return None;
        }
        acc = acc * 10 + d;
        i = i + 1;
    }
    proof {
        assert(v@.subrange(start as int, v@.len() as int) =~= digits);
    }
    Some(acc)
}

/// Once a decimal prefix already exceeds what extending it could shrink,
/// the value of the whole digit string is at least as large.
proof fn lemma_tail_value_grows(s: Seq<char>, start: int, i: int)
    requires
        0 <= start <= i < s.len(),
        forall|k: int| start <= k < s.len() ==> is_digit(#[trigger] s[k]),
    ensures
        spec_digits_value(s.subrange(start, s.len() as int)) >= spec_digits_value(
            s.subrange(start, i + 1),
        ),
    decreases s.len() - i,
{
    if i + 1 == s.len() {
        assert(s.subrange(start, s.len() as int) =~= s.subrange(start, i + 1));
    } else {
        lemma_tail_value_grows(s, start, i + 1);
        let a = s.subrange(start, i + 1);
        let b = s.subrange(start, i + 2);
        assert(b.drop_last() =~= a);
        assert(forall|k: int| 0 <= k < a.len() ==> is_digit(#[trigger] a[k]));
        lemma_digits_value_nonneg(a);
        assert(spec_digits_value(b) == spec_digits_value(a) * 10 + digit_val(b.last()));
        assert(spec_digits_value(a) * 10 >= spec_digits_value(a)) by (nonlinear_arith)
            requires
                spec_digits_value(a) >= 0,
        ;
    }
}

/// The views of a sequence of strings.
pub open spec fn strs_view(v: Seq<String>) -> Seq<Seq<char>> {
    Seq::new(v.len(), |i: int| v[i]@)
}

/// The parts joined with `sep` between consecutive parts.
pub open spec fn spec_join(parts: Seq<Seq<char>>, sep: Seq<char>) -> Seq<char>
    decreases parts.len(),
{
    if parts.len() == 0 {
        Seq::empty()
    } else if parts.len() == 1 {
        parts[0]
    } else {
        spec_join(parts.drop_last(), sep) + sep + parts.last()
    }
}

/// Joins the strings with `sep` between consecutive entries.
pub fn join_strings(parts: &Vec<String>, sep: &str) -> (r: String)
    ensures
        r@ == spec_join(strs_view(parts@), sep@),
{
    let mut r = String::new();
    let mut i: usize = 0;
    while i < parts.len()
        invariant
            i <= parts@.len(),
            r@ == spec_join(strs_view(parts@).take(i as int), sep@),
        decreases parts@.len() - i,
    {
        if i > 0 {
            r.append(sep);
        }
        r.append(parts[i].as_str());
        proof {
            let pv = strs_view(parts@);
            assert(pv.take(i + 1int).drop_last() =~= pv.take(i as int));
            assert(pv.take(i + 1int).last() == parts@[i as int]@);
            if i == 0 {
                assert(r@ =~= spec_join(pv.take(i + 1int), sep@));
            } else {
                assert(r@ =~= spec_join(pv.take(i + 1int), sep@));
            }
        }
        i = i + 1;
    }
    proof {
        assert(strs_view(parts@).take(parts@.len() as int) =~= strs_view(parts@));
    }
    r
}

/// The pieces of `s` split on every occurrence of `c`, reading from
/// position `i`; empty pieces are kept, as `str::split` keeps them.
pub open spec fn spec_split_from(s: Seq<char>, c: char, i: int) -> Seq<Seq<char>>
    decreases s.len() - i,
    when 0 <= i <= s.len()
{
    let e = scan(s, i, CharClass::NotChar(c));
    if e >= s.len() {
        seq![s.subrange(i, e)]
    } else {
        proof {
            lemma_scan(s, i, CharClass::NotChar(c));
        }
        seq![s.subrange(i, e)] + spec_split_from(s, c, e + 1)
    }
}

/// The pieces of `s` split on every occurrence of `c`.
pub open spec fn spec_split_char(s: Seq<char>, c: char) -> Seq<Seq<char>> {
    spec_split_from(s, c, 0)
}

/// Splits on every occurrence of `c`, keeping empty pieces.
pub fn split_char(s: &str, c: char) -> (r: Vec<String>)
    ensures
        strs_view(r@) == spec_split_char(s@, c),
{
    let v = to_chars(s);
    let mut out: Vec<String> = Vec::new();
    let mut i: usize = 0;
    let mut e = scan_exec(&v, i, CharClass::NotChar(c));
    while e < v.len()
        invariant
            0 <= i <= e <= v@.len(),
            v@ == s@,
            e as int == scan(v@, i as int, CharClass::NotChar(c)),
            spec_split_char(s@, c) =~= strs_view(out@) + spec_split_from(s@, c, i as int),
        decreases v@.len() - i,
    {
        let piece = chars_to_string_range(&v, i, e);
        out.push(piece);
        proof {
            assert(strs_view(out@) =~= strs_view(out@.drop_last()).push(s@.subrange(
                i as int,
                e as int,
            )));
        }
        i = e + 1;
        e = scan_exec(&v, i, CharClass::NotChar(c));
    }
    let piece = chars_to_string_range(&v, i, e);
    out.push(piece);
    proof {
        assert(strs_view(out@) =~= strs_view(out@.drop_last()).push(s@.subrange(
            i as int,
            e as int,
        )));
        assert(strs_view(out@) =~= spec_split_char(s@, c));
    }
    out
}

/// Whether `pat` occurs in `s` starting at position `i`.
pub open spec fn match_at(s: Seq<char>, pat: Seq<char>, i: int) -> bool {
    0 <= i && i + pat.len() <= s.len() && s.subrange(i, i + pat.len()) == pat
}

/// Whether `pat` occurs in `v` at position `i`, decided at run time.
pub fn match_at_exec(v: &Vec<char>, pat: &Vec<char>, i: usize) -> (r: bool)
    requires
        i <= v@.len(),
    ensures
        r == match_at(v@, pat@, i as int),
{
    let n = v.len();
    if pat.len() > n - i {
        return false;
    }
    let mut k: usize = 0;
    while k < pat.len()
        invariant
            k <= pat@.len(),
            n == v@.len(),
            i + pat@.len() <= n,
            forall|j: int| 0 <= j < k ==> v@[i + j] == pat@[j],
        decreases pat@.len() - k,
    {
        if v[i + k] != pat[k] {
            proof {
                assert(v@.subrange(i as int, i + pat@.len())[k as int] == v@[i + k]);
            }
            return false;
        }
        k = k + 1;
    }
    proof {
        assert(v@.subrange(i as int, i + pat@.len()) =~= pat@);
    }
    true
}

/// `s` with every occurrence of `pat` replaced by `rep`, scanning left to
/// right without overlap, as `str::replace` does.
pub open spec fn spec_replace(s: Seq<char>, pat: Seq<char>, rep: Seq<char>) -> Seq<char>
    decreases s.len(),
    when pat.len() > 0
{
    if s.len() == 0 {
        s
    } else if match_at(s, pat, 0) {
        rep + spec_replace(s.skip(pat.len() as int), pat, rep)
    } else {
        seq![s[0]] + spec_replace(s.skip(1), pat, rep)
    }
}

/// Appends all of `src` to `dst`.
pub fn push_all(dst: &mut Vec<char>, src: &Vec<char>)
    ensures
        final(dst)@ == old(dst)@ + src@,
{
    let mut k: usize = 0;
    while k < src.len()
        invariant
            k <= src@.len(),
            dst@ == old(dst)@ + src@.take(k as int),
        decreases src@.len() - k,
    {
        dst.push(src[k]);
        proof {
            assert(dst@ =~= old(dst)@ + src@.take(k + 1int));
        }
        k = k + 1;
    }
    proof {
        assert(old(dst)@ + src@.take(src@.len() as int) =~= old(dst)@ + src@);
    }
}

/// Replaces every occurrence of `pat` in `s` by `rep`, scanning left to
/// right without overlap.
pub fn replace_chars(s: &Vec<char>, pat: &Vec<char>, rep: &Vec<char>) -> (r: Vec<char>)
    requires
        pat@.len() > 0,
    ensures
        r@ == spec_replace(s@, pat@, rep@),
{
    let mut out: Vec<char> = Vec::new();
    let mut i: usize = 0;
    proof {
        assert(s@.skip(0) =~= s@);
    }
    while i < s.len()
        invariant
            i <= s@.len(),
            pat@.len() > 0,
            spec_replace(s@, pat@, rep@) =~= out@ + spec_replace(s@.skip(i as int), pat@, rep@),
        decreases s@.len() - i,
    {
        let ghost rest = s@.skip(i as int);
        if match_at_exec(s, pat, i) {
            push_all(&mut out, rep);
            proof {
                assert(rest.subrange(0, pat@.len() as int) =~= s@.subrange(
                    i as int,
                    i + pat@.len(),
                ));
                assert(match_at(rest, pat@, 0));
                assert(rest.skip(pat@.len() as int) =~= s@.skip(i + pat@.len()));
            }
            i = i + pat.len();
        } else {
            let ghost out_pre = out@;
            out.push(s[i]);
            proof {
                if pat@.len() <= rest.len() {
                    assert(rest.subrange(0, pat@.len() as int) =~= s@.subrange(
                        i as int,
                        i + pat@.len(),
                    ));
                }
                assert(!match_at(rest, pat@, 0));
                assert(rest[0] == s@[i as int]);
                assert(rest.skip(1) =~= s@.skip(i + 1));
                assert(out@ + spec_replace(s@.skip(i + 1), pat@, rep@) =~= out_pre
                    + spec_replace(rest, pat@, rep@)) by {
                    assert(spec_replace(rest, pat@, rep@) == seq![rest[0]] + spec_replace(
                        rest.skip(1),
                        pat@,
                        rep@,
                    ));
                };
            }
            i = i + 1;
        }
    }
    proof {
        assert(s@.skip(s@.len() as int) =~= Seq::<char>::empty());
        assert(spec_replace(Seq::<char>::empty(), pat@, rep@) =~= Seq::<char>::empty());
        assert(out@ + Seq::<char>::empty() =~= out@);
    }
    out
}

/// The whitespace-separated words of `s`, reading from position `i`;
/// runs of whitespace are skipped and empty words never arise.
pub open spec fn spec_split_ws_from(s: Seq<char>, i: int) -> Seq<Seq<char>>
    decreases s.len() - i,
    when 0 <= i <= s.len()
{
    let j = scan(s, i, CharClass::Wsp);
    if j >= s.len() {
        Seq::empty()
    } else {
        let e = scan(s, j, CharClass::NonWsp);
        proof {
            lemma_scan(s, i, CharClass::Wsp);
            lemma_scan(s, j, CharClass::NonWsp);
            assert(in_class(CharClass::NonWsp, s[j]));
            assert(scan(s, j, CharClass::NonWsp) == scan(s, j + 1, CharClass::NonWsp));
            lemma_scan(s, j + 1, CharClass::NonWsp);
        }
        seq![s.subrange(j, e)] + spec_split_ws_from(s, e)
    }
}

/// The whitespace-separated words of `s`.
pub open spec fn spec_split_ws(s: Seq<char>) -> Seq<Seq<char>> {
    spec_split_ws_from(s, 0)
}

/// Splits `s` into its whitespace-separated words.
pub fn split_ws(s: &str) -> (r: Vec<String>)
    ensures
        strs_view(r@) == spec_split_ws(s@),
{
    let v = to_chars(s);
    split_ws_chars(&v)
}

/// Splits `v` into its whitespace-separated words.
pub fn split_ws_chars(v: &Vec<char>) -> (r: Vec<String>)
    ensures
        strs_view(r@) == spec_split_ws(v@),
{
    let mut out: Vec<String> = Vec::new();
    let mut i = scan_exec(v, 0, CharClass::Wsp);
    proof {
        lemma_scan(v@, 0, CharClass::Wsp);
        assert(strs_view(out@) =~= Seq::<Seq<char>>::empty());
        assert(spec_split_ws(v@) =~= strs_view(out@) + spec_split_ws_from(v@, i as int)) by {
            assert(scan(v@, i as int, CharClass::Wsp) == scan(v@, 0, CharClass::Wsp));
        };
    }
    while i < v.len()
        invariant
            i <= v@.len(),
            scan(v@, i as int, CharClass::Wsp) == i,
            spec_split_ws(v@) =~= strs_view(out@) + spec_split_ws_from(v@, i as int),
        decreases v@.len() - i,
    {
        let e = scan_exec(v, i, CharClass::NonWsp);
        proof {
            lemma_scan(v@, i as int, CharClass::NonWsp);
        }
        let word = chars_to_string_range(v, i, e);
        out.push(word);
        proof {
            assert(strs_view(out@) =~= strs_view(out@.drop_last()).push(v@.subrange(
                i as int,
                e as int,
            )));
        }
        let next = scan_exec(v, e, CharClass::Wsp);
        proof {
            lemma_scan(v@, e as int, CharClass::Wsp);
            // One step of the word recursion, then idempotence of the
            // whitespace scan lines the spec up with the next position.
            assert(spec_split_ws_from(v@, i as int) =~= seq![v@.subrange(i as int, e as int)]
                + spec_split_ws_from(v@, e as int));
            assert(scan(v@, next as int, CharClass::Wsp) == next as int);
            assert(spec_split_ws_from(v@, e as int) =~= spec_split_ws_from(v@, next as int)) by {
                assert(scan(v@, e as int, CharClass::Wsp) == next as int);
                lemma_scan(v@, next as int, CharClass::NonWsp);
                if (next as int) < v@.len() {
                    assert(spec_split_ws_from(v@, e as int) == seq![v@.subrange(
                        next as int,
                        scan(v@, next as int, CharClass::NonWsp),
                    )] + spec_split_ws_from(v@, scan(v@, next as int, CharClass::NonWsp)));
                    assert(spec_split_ws_from(v@, next as int) == seq![v@.subrange(
                        next as int,
                        scan(v@, next as int, CharClass::NonWsp),
                    )] + spec_split_ws_from(v@, scan(v@, next as int, CharClass::NonWsp)));
                }
            };
        }
        i = next;
    }
    proof {
        assert(spec_split_ws_from(v@, i as int) =~= Seq::<Seq<char>>::empty());
        assert(strs_view(out@) =~= spec_split_ws(v@));
    }
    out
}

/// The scan stops exactly at the first position whose character falls
/// outside the class.
pub proof fn lemma_scan_is(s: Seq<char>, i: int, cl: CharClass, m: int)
    requires
        0 <= i <= m <= s.len(),
        forall|k: int| i <= k < m ==> in_class(cl, #[trigger] s[k]),
        m < s.len() ==> !in_class(cl, s[m]),
    ensures
        scan(s, i, cl) == m,
    decreases m - i,
{
    if i < m {
        lemma_scan_is(s, i + 1, cl, m);
    }
}

/// Splitting from position `i` is splitting the suffix that starts there.
pub proof fn lemma_split_shift(s: Seq<char>, c: char, i: int)
    requires
        0 <= i <= s.len(),
    ensures
        spec_split_from(s, c, i) =~= spec_split_from(s.skip(i), c, 0),
    decreases s.len() - i,
{
    let cl = CharClass::NotChar(c);
    let e = scan(s, i, cl);
    lemma_scan(s, i, cl);
    let t = s.skip(i);
    assert(forall|k: int| 0 <= k < e - i ==> in_class(cl, #[trigger] t[k]));
    lemma_scan_is(t, 0, cl, e - i);
    assert(s.subrange(i, e) =~= t.subrange(0, e - i));
    if e >= s.len() {
    } else {
        lemma_split_shift(s, c, e + 1);
        lemma_split_shift(s.skip(e + 1), c, 0);
        lemma_split_shift(t, c, e - i + 1);
        assert(t.skip(e - i + 1) =~= s.skip(e + 1));
    }
}

/// Joining at least two parts equals the first part, the separator, and
/// the join of the rest.
pub proof fn lemma_join_left(parts: Seq<Seq<char>>, sep: Seq<char>)
    requires
        parts.len() >= 2,
    ensures
        spec_join(parts, sep) =~= parts[0] + sep + spec_join(parts.drop_first(), sep),
    decreases parts.len(),
{
    if parts.len() == 2 {
        assert(parts.drop_last() =~= seq![parts[0]]);
        assert(parts.drop_first() =~= seq![parts[1]]);
        assert(spec_join(parts.drop_last(), sep) == parts.drop_last()[0]);
        assert(spec_join(parts.drop_first(), sep) == parts.drop_first()[0]);
        assert(spec_join(parts, sep) =~= spec_join(parts.drop_last(), sep) + sep + parts.last());
    } else {
        lemma_join_left(parts.drop_last(), sep);
        assert(parts.drop_last()[0] == parts[0]);
        assert(parts.drop_last().drop_first() =~= parts.drop_first().drop_last());
        assert(parts.drop_first().last() == parts.last());
        let mid = spec_join(parts.drop_first().drop_last(), sep);
        assert(spec_join(parts.drop_last(), sep) =~= parts[0] + sep + mid);
        assert(spec_join(parts.drop_first(), sep) =~= mid + sep + parts.last());
        assert(spec_join(parts, sep) =~= spec_join(parts.drop_last(), sep) + sep + parts.last());
        assert(spec_join(parts, sep) =~= parts[0] + sep + (mid + sep + parts.last()));
    }
}

/// Splitting a join undoes it, provided no part contains the separator.
pub proof fn lemma_split_join(parts: Seq<Seq<char>>, c: char)
    requires
        parts.len() >= 1,
        forall|k: int| 0 <= k < parts.len() ==> !contains_char(#[trigger] parts[k], c),
    ensures
        spec_split_char(spec_join(parts, seq![c]), c) =~= parts,
    decreases parts.len(),
{
    let cl = CharClass::NotChar(c);
    let s = spec_join(parts, seq![c]);
    if parts.len() == 1 {
        assert(forall|k: int| 0 <= k < s.len() ==> in_class(cl, #[trigger] s[k])) by {
            assert(forall|k: int| 0 <= k < parts[0].len() ==> parts[0][k] != c);
        };
        lemma_scan_is(s, 0, cl, s.len() as int);
        assert(s.subrange(0, s.len() as int) =~= parts[0]);
        assert(spec_split_char(s, c) =~= seq![parts[0]]);
    } else {
        lemma_join_left(parts, c_seq(c));
        let p0 = parts[0];
        let rest = spec_join(parts.drop_first(), seq![c]);
        assert(s =~= p0 + seq![c] + rest);
        assert(forall|k: int| 0 <= k < p0.len() ==> in_class(cl, #[trigger] s[k])) by {
            assert(forall|k: int| 0 <= k < p0.len() ==> s[k] == p0[k] && p0[k] != c);
        };
        assert(s[p0.len() as int] == c);
        lemma_scan_is(s, 0, cl, p0.len() as int);
        assert(s.subrange(0, p0.len() as int) =~= p0);
        lemma_split_shift(s, c, p0.len() as int + 1);
        assert(s.skip(p0.len() as int + 1) =~= rest);
        lemma_split_join(parts.drop_first(), c);
        assert(spec_split_char(s, c) =~= seq![p0] + spec_split_char(rest, c));
    }
}

/// The one-character sequence holding `c`.
pub open spec fn c_seq(c: char) -> Seq<char> {
    seq![c]
}

/// The first position at or after `i` where `pat` occurs in `s`, or -1.
pub open spec fn find_at(s: Seq<char>, pat: Seq<char>, i: int) -> int
    decreases s.len() - i,
    when 0 <= i <= s.len()
{
    if i + pat.len() > s.len() {
        -1
    } else if match_at(s, pat, i) {
        i
    } else if i < s.len() {
        find_at(s, pat, i + 1)
    } else {
        -1
    }
}

/// A found position is in range, matches, and is the first at or after `i`.
pub proof fn lemma_find_at(s: Seq<char>, pat: Seq<char>, i: int)
    requires
        0 <= i <= s.len(),
    ensures
        find_at(s, pat, i) == -1 || (i <= find_at(s, pat, i) && find_at(s, pat, i) + pat.len()
            <= s.len() && match_at(s, pat, find_at(s, pat, i))),
        find_at(s, pat, i) == -1 ==> forall|j: int| i <= j ==> !match_at(s, pat, j),
        forall|j: int| i <= j < find_at(s, pat, i) ==> !match_at(s, pat, j),
    decreases s.len() - i,
{
    if i + pat.len() > s.len() {
        assert(forall|j: int| i <= j ==> !match_at(s, pat, j));
    } else if match_at(s, pat, i) {
    } else if i < s.len() {
        lemma_find_at(s, pat, i + 1);
    }
}

/// The first occurrence of `pat` in `v` at or after `i`, if any.
pub fn find_at_exec(v: &Vec<char>, pat: &Vec<char>, i: usize) -> (r: Option<usize>)
    requires
        i <= v@.len(),
    ensures
        match r {
            Some(p) => p as int == find_at(v@, pat@, i as int) && i <= p && p + pat@.len()
                <= v@.len(),
            None => find_at(v@, pat@, i as int) == -1,
        },
{
    let mut j: usize = i;
    loop
        invariant
            i <= j <= v@.len(),
            find_at(v@, pat@, i as int) == find_at(v@, pat@, j as int),
        ensures
            i <= j <= v@.len(),
            find_at(v@, pat@, i as int) == find_at(v@, pat@, j as int),
            (j + pat@.len() > v@.len() && find_at(v@, pat@, j as int) == -1) || (j + pat@.len()
                <= v@.len() && match_at(v@, pat@, j as int) && find_at(v@, pat@, j as int)
                == j as int),
        decreases v@.len() - j,
    {
        if pat.len() > v.len() - j {
            proof {
                assert(find_at(v@, pat@, j as int) == -1);
            }
            break;
        }
        if match_at_exec(v, pat, j) {
            break;
        }
        proof {
            if pat@.len() == 0 {
                assert(v@.subrange(j as int, j as int) =~= pat@);
                assert(false);
            }
            assert(j < v@.len());
        }
        j = j + 1;
    }
    if pat.len() > v.len() - j {
        None
    } else {
        Some(j)
    }
}

/// The lower-case form of an ASCII letter; anything else is unchanged.
pub open spec fn ascii_lower_char(c: char) -> char {
    if c == 'A' {
        'a'
    } else if c == 'B' {
        'b'
    } else if c == 'C' {
        'c'
    } else if c == 'D' {
        'd'
    } else if c == 'E' {
        'e'
    } else if c == 'F' {
        'f'
    } else if c == 'G' {
        'g'
    } else if c == 'H' {
        'h'
    } else if c == 'I' {
        'i'
    } else if c == 'J' {
        'j'
    } else if c == 'K' {
        'k'
    } else if c == 'L' {
        'l'
    } else if c == 'M' {
        'm'
    } else if c == 'N' {
        'n'
    } else if c == 'O' {
        'o'
    } else if c == 'P' {
        'p'
    } else if c == 'Q' {
        'q'
    } else if c == 'R' {
        'r'
    } else if c == 'S' {
        's'
    } else if c == 'T' {
        't'
    } else if c == 'U' {
        'u'
    } else if c == 'V' {
        'v'
    } else if c == 'W' {
        'w'
    } else if c == 'X' {
        'x'
    } else if c == 'Y' {
        'y'
    } else if c == 'Z' {
        'z'
    } else {
        c
    }
}

/// `s` with every ASCII upper-case letter lowered.
pub open spec fn ascii_lower(s: Seq<char>) -> Seq<char> {
    Seq::new(s.len(), |i: int| ascii_lower_char(s[i]))
}

fn ascii_lower_char_exec(c: char) -> (r: char)
    ensures
        r == ascii_lower_char(c),
{
    match c {
        'A' => 'a',
        'B' => 'b',
        'C' => 'c',
        'D' => 'd',
        'E' => 'e',
        'F' => 'f',
        'G' => 'g',
        'H' => 'h',
        'I' => 'i',
        'J' => 'j',
        'K' => 'k',
        'L' => 'l',
        'M' => 'm',
        'N' => 'n',
        'O' => 'o',
        'P' => 'p',
        'Q' => 'q',
        'R' => 'r',
        'S' => 's',
        'T' => 't',
        'U' => 'u',
        'V' => 'v',
        'W' => 'w',
        'X' => 'x',
        'Y' => 'y',
        'Z' => 'z',
        other => other,
    }
}

/// Lowers every ASCII upper-case letter of `v`.
pub fn to_ascii_lower(v: &Vec<char>) -> (r: Vec<char>)
    ensures
        r@ == ascii_lower(v@),
{
    let mut r: Vec<char> = Vec::new();
    let mut i: usize = 0;
    while i < v.len()
        invariant
            i <= v@.len(),
            r@ =~= ascii_lower(v@).take(i as int),
        decreases v@.len() - i,
    {
        r.push(ascii_lower_char_exec(v[i]));
        proof {
            assert(r@ =~= ascii_lower(v@).take(i + 1int));
        }
        i = i + 1;
    }
    proof {
        assert(ascii_lower(v@).take(v@.len() as int) =~= ascii_lower(v@));
    }
    r
}

/// `s` with trailing whitespace removed.
pub open spec fn rstrip(s: Seq<char>) -> Seq<char>
    decreases s.len(),
{
    if s.len() > 0 && is_wsp(s.last()) {
        rstrip(s.drop_last())
    } else {
        s
    }
}

/// `s` with leading and trailing whitespace removed, as `str::trim` does
/// for the shell's whitespace characters.
pub open spec fn spec_trim(s: Seq<char>) -> Seq<char> {
    rstrip(s.skip(scan(s, 0, CharClass::Wsp)))
}

/// The positions `v[from..to]` with whitespace stripped from both ends.
pub fn trim_range(v: &Vec<char>, from: usize, to: usize) -> (r: (usize, usize))
    requires
        from <= to <= v@.len(),
    ensures
        from <= r.0 <= r.1 <= to,
        v@.subrange(r.0 as int, r.1 as int) == spec_trim(v@.subrange(from as int, to as int)),
{
    let ghost piece = v@.subrange(from as int, to as int);
    let mut a: usize = from;
    while a < to && in_class_exec(CharClass::Wsp, v[a])
        invariant
            from <= a <= to <= v@.len(),
            piece == v@.subrange(from as int, to as int),
            scan(piece, 0, CharClass::Wsp) == scan(piece, a - from, CharClass::Wsp),
            forall|k: int| from <= k < a ==> is_wsp(#[trigger] v@[k]),
        decreases to - a,
    {
        proof {
            assert(piece[a - from] == v@[a as int]);
        }
        a = a + 1;
    }
    proof {
        lemma_scan(piece, 0, CharClass::Wsp);
        if a < to {
            assert(piece[a - from] == v@[a as int]);
        }
        assert(scan(piece, a - from, CharClass::Wsp) == a - from);
    }
    let mut b: usize = to;
    proof {
        assert(piece.skip(a - from) =~= v@.subrange(a as int, to as int));
    }
    while b > a && in_class_exec(CharClass::Wsp, v[b - 1])
        invariant
            from <= a <= b <= to <= v@.len(),
            piece == v@.subrange(from as int, to as int),
            rstrip(piece.skip(a - from)) == rstrip(v@.subrange(a as int, b as int)),
        decreases b,
    {
        proof {
            let cur = v@.subrange(a as int, b as int);
            assert(cur.last() == v@[b - 1int]);
            assert(cur.drop_last() =~= v@.subrange(a as int, b - 1int));
        }
        b = b - 1;
    }
    proof {
        let cur = v@.subrange(a as int, b as int);
        if b > a {
            assert(cur.last() == v@[b - 1int]);
            assert(!is_wsp(cur.last()));
        }
        assert(rstrip(cur) == cur);
        assert(piece.skip(a - from) =~= v@.subrange(a as int, to as int));
        assert(spec_trim(piece) == rstrip(piece.skip(scan(piece, 0, CharClass::Wsp))));
    }
    (a, b)
}

/// Whether `c` occurs anywhere in `s`.
pub open spec fn contains_char(s: Seq<char>, c: char) -> bool {
    exists|k: int| 0 <= k < s.len() && s[k] == c
}

/// Whether `c` occurs anywhere in `v`, decided at run time.
pub fn contains_char_exec(v: &Vec<char>, c: char) -> (r: bool)
    ensures
        r == contains_char(v@, c),
{
    let e = scan_exec(v, 0, CharClass::NotChar(c));
    proof {
        lemma_scan(v@, 0, CharClass::NotChar(c));
    }
    e < v.len()
}

} // verus!
