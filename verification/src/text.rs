//! Verified helpers over text: trimming, prefix tests, splitting into lines,
//! and joining with a separator. Specifications are stated over `Seq<char>`
//! views of `&str` and `String`.

use vstd::prelude::*;

verus! {

/// The whitespace characters that trimming removes: the ASCII whitespace
/// forms that occur in line-oriented text.
pub open spec fn is_wspace(c: char) -> bool {
    c == ' ' || c == '\t' || c == '\r' || c == '\n' || c == '\u{b}' || c == '\u{c}'
}

/// Executable test for [`is_wspace`].
pub fn is_wspace_char(c: char) -> (b: bool)
    ensures
        b == is_wspace(c),
{
    c == ' ' || c == '\t' || c == '\r' || c == '\n' || c == '\u{b}' || c == '\u{c}'
}

/// `s` without its leading whitespace characters.
pub open spec fn trim_start_rec(s: Seq<char>) -> Seq<char>
    decreases s.len(),
{
    if s.len() > 0 && is_wspace(s[0]) {
        trim_start_rec(s.drop_first())
    } else {
        s
    }
}

/// `s` without its trailing whitespace characters.
pub open spec fn trim_end_rec(s: Seq<char>) -> Seq<char>
    decreases s.len(),
{
    if s.len() > 0 && is_wspace(s.last()) {
        trim_end_rec(s.drop_last())
    } else {
        s
    }
}

/// `s` without leading and trailing whitespace.
pub open spec fn spec_trim(s: Seq<char>) -> Seq<char> {
    trim_end_rec(trim_start_rec(s))
}

/// If the first `a` characters of `s` are whitespace and the character at `a`
/// (when present) is not, then trimming the front of `s` drops exactly `a`
/// characters.
proof fn lemma_trim_start_at(s: Seq<char>, a: int)
    requires
        0 <= a <= s.len(),
        forall|k: int| 0 <= k < a ==> is_wspace(s[k]),
        a < s.len() ==> !is_wspace(s[a]),
    ensures
        trim_start_rec(s) =~= s.skip(a),
    decreases a,
{
    if a == 0 {
        if s.len() == 0 {
            assert(trim_start_rec(s) =~= s.skip(0));
        } else {
            assert(trim_start_rec(s) =~= s.skip(0));
        }
    } else {
        assert(is_wspace(s[0]));
        let t = s.drop_first();
        assert(t =~= s.skip(1));
        lemma_trim_start_at(t, a - 1);
        assert(t.skip(a - 1) =~= s.skip(a));
    }
}

/// If the characters of `s` from `b` on are whitespace and the character at
/// `b - 1` (when present) is not, then trimming the back of `s` keeps exactly
/// the first `b` characters.
proof fn lemma_trim_end_at(s: Seq<char>, b: int)
    requires
        0 <= b <= s.len(),
        forall|k: int| b <= k < s.len() ==> is_wspace(s[k]),
        b > 0 ==> !is_wspace(s[b - 1]),
    ensures
        trim_end_rec(s) =~= s.take(b),
    decreases s.len() - b,
{
    if b == s.len() {
        if s.len() == 0 {
            assert(trim_end_rec(s) =~= s.take(b));
        } else {
            assert(!is_wspace(s.last()));
            assert(trim_end_rec(s) =~= s.take(b));
        }
    } else {
        assert(is_wspace(s.last()));
        let t = s.drop_last();
        assert(t =~= s.take(s.len() - 1));
        lemma_trim_end_at(t, b);
        assert(t.take(b) =~= s.take(b));
    }
}

/// A string that is non-empty and has no whitespace at either end trims to
/// itself.
pub proof fn lemma_trim_identity(s: Seq<char>)
    requires
        s.len() > 0,
        !is_wspace(s[0]),
        !is_wspace(s.last()),
    ensures
        spec_trim(s) == s,
{
    assert(trim_start_rec(s) == s);
    assert(trim_end_rec(s) == s);
}

/// The result of trimming is either empty or begins and ends with
/// non-whitespace characters.
pub proof fn lemma_trim_shape(s: Seq<char>)
    ensures
        spec_trim(s).len() > 0 ==> !is_wspace(spec_trim(s)[0]),
        spec_trim(s).len() > 0 ==> !is_wspace(spec_trim(s).last()),
    decreases s.len(),
{
    if s.len() > 0 && is_wspace(s[0]) {
        lemma_trim_shape(s.drop_first());
    } else {
        lemma_trim_start_front(s);
        lemma_trim_end_shape(trim_start_rec(s));
    }
}

/// Trimming the front leaves a string whose first character, if any, is not
/// whitespace.
proof fn lemma_trim_start_front(s: Seq<char>)
    ensures
        trim_start_rec(s).len() > 0 ==> !is_wspace(trim_start_rec(s)[0]),
    decreases s.len(),
{
    if s.len() > 0 && is_wspace(s[0]) {
        lemma_trim_start_front(s.drop_first());
    }
}

/// Trimming the back leaves a string whose last character, if any, is not
/// whitespace, and does not change the first character.
proof fn lemma_trim_end_shape(s: Seq<char>)
    ensures
        trim_end_rec(s).len() > 0 ==> !is_wspace(trim_end_rec(s).last()),
        trim_end_rec(s).len() > 0 ==> trim_end_rec(s)[0] == s[0],
    decreases s.len(),
{
    if s.len() > 0 && is_wspace(s.last()) {
        lemma_trim_end_shape(s.drop_last());
    }
}

/// The index of the first occurrence of `c` in `s`, or `s.len()` when `c`
/// does not occur.
pub open spec fn find_char(s: Seq<char>, c: char) -> nat
    decreases s.len(),
{
    if s.len() == 0 {
        0
    } else if s[0] == c {
        0
    } else {
        1 + find_char(s.drop_first(), c)
    }
}

/// What [`find_char`] returns: an in-range index, no occurrence of `c` before
/// it, and `c` itself at it unless `c` does not occur at all.
pub proof fn lemma_find_char(s: Seq<char>, c: char)
    ensures
        find_char(s, c) <= s.len(),
        forall|k: int| 0 <= k < find_char(s, c) ==> s[k] != c,
        find_char(s, c) < s.len() ==> s[find_char(s, c) as int] == c,
    decreases s.len(),
{
    if s.len() > 0 && s[0] != c {
        lemma_find_char(s.drop_first(), c);
        assert(forall|k: int| 1 <= k < find_char(s, c) ==> s[k] == s.drop_first()[k - 1]);
    }
}

/// Returns the slice of `s` with leading and trailing whitespace removed.
pub fn trim_str<'a>(s: &'a str) -> (r: &'a str)
    ensures
        r@ == spec_trim(s@),
{
    let n = s.unicode_len();
    let mut a: usize = 0;
    while a < n && is_wspace_char(s.get_char(a))
        invariant
            0 <= a <= n,
            n == s@.len(),
            forall|k: int| 0 <= k < a ==> is_wspace(s@[k]),
        decreases n - a,
    {
        a = a + 1;
    }
    if a == n {
        proof {
            lemma_trim_start_at(s@, a as int);
            assert(trim_start_rec(s@).len() == 0);
            assert(spec_trim(s@) =~= s@.subrange(0, 0));
        }
        return s.substring_char(0, 0);
    }
    let mut b: usize = n;
    while b > a && is_wspace_char(s.get_char(b - 1))
        invariant
            a <= b <= n,
            n == s@.len(),
            a < n,
            !is_wspace(s@[a as int]),
            forall|k: int| b <= k < n ==> is_wspace(s@[k]),
        decreases b,
    {
        b = b - 1;
    }
    proof {
        lemma_trim_start_at(s@, a as int);
        assert(b > a);
        assert(!is_wspace(s@[b - 1]));
        let t = s@.skip(a as int);
        assert(forall|k: int| b - a <= k < t.len() ==> is_wspace(#[trigger] t[k]));
        assert(!is_wspace(t[b - a - 1]));
        lemma_trim_end_at(t, b - a);
        assert(spec_trim(s@) =~= s@.subrange(a as int, b as int));
    }
    s.substring_char(a, b)
}

/// `l` without a single trailing carriage return, if it has one.
pub open spec fn chop_cr(l: Seq<char>) -> Seq<char> {
    if l.len() > 0 && l.last() == '\r' {
        l.drop_last()
    } else {
        l
    }
}

/// The lines of `s`: segments delimited by `'\n'`, each with the `'\r'` of a
/// `"\r\n"` ending removed, and with no final empty segment for a trailing
/// newline. Mirrors how `str::lines` splits text.
pub open spec fn spec_lines(s: Seq<char>) -> Seq<Seq<char>>
    decreases s.len(),
{
    if s.len() == 0 {
        Seq::empty()
    } else {
        let e = find_char(s, '\n');
        if e < s.len() {
            seq![chop_cr(s.take(e as int))] + spec_lines(s.skip(e as int + 1))
        } else {
            seq![s]
        }
    }
}

/// The elements of `ls` concatenated, with `sep` between consecutive
/// elements.
pub open spec fn join_with(ls: Seq<Seq<char>>, sep: Seq<char>) -> Seq<char>
    decreases ls.len(),
{
    if ls.len() == 0 {
        Seq::empty()
    } else if ls.len() == 1 {
        ls[0]
    } else {
        ls[0] + sep + join_with(ls.drop_first(), sep)
    }
}

/// Joining one more element appends a separator and that element (or is just
/// the element, when the sequence was empty).
pub proof fn lemma_join_with_push(ls: Seq<Seq<char>>, x: Seq<char>, sep: Seq<char>)
    ensures
        ls.len() == 0 ==> join_with(ls.push(x), sep) == x,
        ls.len() > 0 ==> join_with(ls.push(x), sep) =~= join_with(ls, sep) + sep + x,
    decreases ls.len(),
{
    if ls.len() == 0 {
        assert(join_with(ls.push(x), sep) == ls.push(x)[0]);
        assert(ls.push(x)[0] == x);
    } else if ls.len() == 1 {
        assert(ls.push(x).drop_first() =~= seq![x]);
        assert(join_with(ls.push(x), sep) == ls[0] + sep + join_with(seq![x], sep));
    } else {
        assert(ls.push(x).drop_first() =~= ls.drop_first().push(x));
        lemma_join_with_push(ls.drop_first(), x, sep);
    }
}

/// Whether `p` is a prefix of `s`, as an executable test.
pub fn str_starts_with(s: &str, p: &str) -> (b: bool)
    ensures
        b == p@.is_prefix_of(s@),
{
    let sn = s.unicode_len();
    let pn = p.unicode_len();
    if pn > sn {
        assert(!p@.is_prefix_of(s@));
        return false;
    }
    let mut i: usize = 0;
    while i < pn
        invariant
            0 <= i <= pn <= sn,
            sn == s@.len(),
            pn == p@.len(),
            forall|k: int| 0 <= k < i ==> s@[k] == p@[k],
        decreases pn - i,
    {
        if s.get_char(i) != p.get_char(i) {
            assert(!p@.is_prefix_of(s@));
            return false;
        }
        i = i + 1;
    }
    assert(p@ =~= s@.subrange(0, pn as int));
    true
}

/// Whether two string slices hold the same characters.
pub fn str_eq_str(a: &str, b: &str) -> (r: bool)
    ensures
        r == (a@ == b@),
{
    let an = a.unicode_len();
    let bn = b.unicode_len();
    if an != bn {
        return false;
    }
    let mut i: usize = 0;
    while i < an
        invariant
            0 <= i <= an,
            an == a@.len(),
            an == b@.len(),
            forall|k: int| 0 <= k < i ==> a@[k] == b@[k],
        decreases an - i,
    {
        if a.get_char(i) != b.get_char(i) {
            return false;
        }
        i = i + 1;
    }
    assert(a@ =~= b@);
    true
}

/// Splits `s` into its lines, as [`spec_lines`] describes.
pub fn split_lines(s: &str) -> (r: Vec<String>)
    ensures
        r.deep_view() == spec_lines(s@),
{
    let n = s.unicode_len();
    let mut r: Vec<String> = Vec::new();
    let mut pos: usize = 0;
    proof {
        assert(s@.skip(0) =~= s@);
        assert(r.deep_view() =~= Seq::<Seq<char>>::empty());
    }
    while pos < n
        invariant
            0 <= pos <= n,
            n == s@.len(),
            spec_lines(s@) =~= r.deep_view() + spec_lines(s@.skip(pos as int)),
        decreases n - pos,
    {
        let ghost rest = s@.skip(pos as int);
        let mut e: usize = pos;
        while e < n && s.get_char(e) != '\n'
            invariant
                pos <= e <= n,
                n == s@.len(),
                forall|k: int| pos <= k < e ==> s@[k] != '\n',
            decreases n - e,
        {
            e = e + 1;
        }
        proof {
            lemma_find_char(rest, '\n');
            assert(forall|k: int| 0 <= k < e - pos ==> rest[k] != '\n');
            if e < n {
                assert(rest[e - pos] == '\n');
            }
            assert(find_char(rest, '\n') == e - pos);
        }
        let line =
            if e < n && e > pos && s.get_char(e - 1) == '\r' {
                s.substring_char(pos, e - 1)
            } else {
                s.substring_char(pos, e)
            };
        proof {
            assert(rest.take(e - pos) =~= s@.subrange(pos as int, e as int));
            if e < n {
                assert(chop_cr(rest.take(e - pos)) =~= line@);
            } else {
                assert(rest =~= s@.subrange(pos as int, e as int));
                assert(spec_lines(rest) == seq![rest]);
            }
        }
        let ghost r_before = r.deep_view();
        let owned = line.to_owned();
        r.push(owned);
        proof {
            assert(r.deep_view() =~= r_before.push(line@));
        }
        if e < n {
            proof {
                assert(spec_lines(rest) == seq![chop_cr(rest.take(e - pos))] + spec_lines(
                    rest.skip(e - pos + 1)));
                assert(rest.skip(e - pos + 1) =~= s@.skip(e + 1));
                assert(r_before + spec_lines(rest) =~= r.deep_view() + spec_lines(s@.skip(e + 1)));
            }
            pos = e + 1;
        } else {
            proof {
                assert(s@.skip(e as int) =~= Seq::<char>::empty());
                assert(r_before + spec_lines(rest) =~= r.deep_view() + spec_lines(s@.skip(e as int)));
            }
            pos = e;
        }
    }
    proof {
        assert(s@.skip(pos as int) =~= Seq::<char>::empty());
        assert(r.deep_view() + spec_lines(s@.skip(pos as int)) =~= r.deep_view());
    }
    r
}

proof fn lemma_trim_start_no_char(s: Seq<char>, c: char)
    requires
        forall|k: int| 0 <= k < s.len() ==> s[k] != c,
    ensures
        forall|k: int| 0 <= k < trim_start_rec(s).len() ==> trim_start_rec(s)[k] != c,
    decreases s.len(),
{
    if s.len() > 0 && is_wspace(s[0]) {
        let t = s.drop_first();
        assert(forall|k: int| 0 <= k < t.len() ==> t[k] == s[k + 1]);
        lemma_trim_start_no_char(t, c);
        assert(trim_start_rec(s) == trim_start_rec(t));
        assert(forall|k: int|
            0 <= k < trim_start_rec(s).len() ==> trim_start_rec(s)[k] == trim_start_rec(t)[k]);
    }
}

proof fn lemma_trim_end_no_char(s: Seq<char>, c: char)
    requires
        forall|k: int| 0 <= k < s.len() ==> s[k] != c,
    ensures
        forall|k: int| 0 <= k < trim_end_rec(s).len() ==> trim_end_rec(s)[k] != c,
    decreases s.len(),
{
    if s.len() > 0 && is_wspace(s.last()) {
        let t = s.drop_last();
        assert(forall|k: int| 0 <= k < t.len() ==> t[k] == s[k]);
        lemma_trim_end_no_char(t, c);
        assert(trim_end_rec(s) == trim_end_rec(t));
        assert(forall|k: int|
            0 <= k < trim_end_rec(s).len() ==> trim_end_rec(s)[k] == trim_end_rec(t)[k]);
    }
}

/// Trimming never introduces a character: a string without `c` trims to a
/// string without `c`.
pub proof fn lemma_trim_no_char(s: Seq<char>, c: char)
    requires
        forall|k: int| 0 <= k < s.len() ==> s[k] != c,
    ensures
        forall|k: int| 0 <= k < spec_trim(s).len() ==> spec_trim(s)[k] != c,
{
    lemma_trim_start_no_char(s, c);
    lemma_trim_end_no_char(trim_start_rec(s), c);
}

/// No line of a text contains a newline character.
pub proof fn lemma_lines_no_newline(s: Seq<char>)
    ensures
        forall|i: int, k: int|
            0 <= i < spec_lines(s).len() && 0 <= k < spec_lines(s)[i].len() ==> spec_lines(
                s,
            )[i][k] != '\n',
    decreases s.len(),
{
    if s.len() > 0 {
        lemma_find_char(s, '\n');
        let e = find_char(s, '\n');
        if e < s.len() {
            let line0 = chop_cr(s.take(e as int));
            assert(forall|k: int| 0 <= k < line0.len() ==> line0[k] == s[k]);
            lemma_lines_no_newline(s.skip(e as int + 1));
            let rest = spec_lines(s.skip(e as int + 1));
            assert(spec_lines(s) == seq![line0] + rest);
            assert(forall|i: int| 1 <= i < spec_lines(s).len() ==> spec_lines(s)[i] == rest[i - 1]);
        }
    }
}

/// Splitting a newline-joined sequence of lines back into lines recovers the
/// sequence, provided each line is non-empty, contains no newline, and does
/// not end in a carriage return.
pub proof fn lemma_lines_of_join(ls: Seq<Seq<char>>)
    requires
        forall|i: int| 0 <= i < ls.len() ==> (#[trigger] ls[i]).len() > 0,
        forall|i: int, k: int| 0 <= i < ls.len() && 0 <= k < ls[i].len() ==> ls[i][k] != '\n',
        forall|i: int| 0 <= i < ls.len() ==> (#[trigger] ls[i]).last() != '\r',
    ensures
        spec_lines(join_with(ls, seq!['\n'])) == ls,
    decreases ls.len(),
{
    let j = join_with(ls, seq!['\n']);
    if ls.len() == 0 {
        assert(spec_lines(j) =~= ls);
    } else if ls.len() == 1 {
        assert(j == ls[0]);
        lemma_find_char(j, '\n');
        assert(find_char(j, '\n') == j.len());
        assert(spec_lines(j) =~= ls);
    } else {
        let rest = ls.drop_first();
        let jrest = join_with(rest, seq!['\n']);
        assert(j == ls[0] + seq!['\n'] + jrest);
        lemma_find_char(j, '\n');
        let e = find_char(j, '\n');
        assert(forall|k: int| 0 <= k < ls[0].len() ==> j[k] == ls[0][k]);
        assert(j[ls[0].len() as int] == '\n');
        assert(e == ls[0].len()) by {
            if e < ls[0].len() {
                assert(j[e as int] == ls[0][e as int]);
            }
            if e > ls[0].len() {
                assert(j[ls[0].len() as int] != '\n');
            }
        }
        assert(j.take(e as int) =~= ls[0]);
        assert(chop_cr(ls[0]) == ls[0]);
        assert(j.skip(e as int + 1) =~= jrest);
        assert(forall|i: int| 0 <= i < rest.len() ==> rest[i] == ls[i + 1]);
        lemma_lines_of_join(rest);
        assert(spec_lines(j) == seq![ls[0]] + rest);
        assert(seq![ls[0]] + rest =~= ls);
    }
}

/// Joins the strings of `items` with `sep` between consecutive elements, as
/// [`join_with`] describes.
pub fn join_strs(items: &Vec<String>, sep: &str) -> (r: String)
    ensures
        r@ == join_with(items.deep_view(), sep@),
{
    let mut r = String::new();
    let mut i: usize = 0;
    while i < items.len()
        invariant
            0 <= i <= items.len(),
            r@ =~= join_with(items.deep_view().take(i as int), sep@),
        decreases items.len() - i,
    {
        if i > 0 {
            r.append(sep);
        }
        r.append(items[i].as_str());
        proof {
            lemma_join_with_push(items.deep_view().take(i as int), items.deep_view()[i as int], sep@);
            assert(items.deep_view().take(i as int).push(items.deep_view()[i as int])
                =~= items.deep_view().take(i + 1));
        }
        i = i + 1;
    }
    proof {
        assert(items.deep_view().take(items.len() as int) =~= items.deep_view());
    }
    r
}

} // verus!
