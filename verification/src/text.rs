//! Text as sequences of characters.
//!
//! Source text is modelled as `Seq<char>`. This module defines what it means
//! to trim a line, to test and strip a prefix, to split text into lines and to
//! join lines again, together with executable functions proved against those
//! definitions.

use vstd::prelude::*;
use vstd::std_specs::iter::IteratorSpec;
use vstd::string::StrSliceExecFns;

verus! {

/// `String::push` appends exactly one character to the end of the string.
pub assume_specification[ String::push ](s: &mut String, c: char)
    ensures
        final(s)@ == old(s)@.push(c),
;

/// The views of a sequence of strings, element by element.
pub open spec fn views(v: Seq<String>) -> Seq<Seq<char>> {
    v.map_values(|s: String| s@)
}

/// The views of a sequence of string slices, element by element.
pub open spec fn slice_views(v: Seq<&str>) -> Seq<Seq<char>> {
    v.map_values(|s: &str| s@)
}

/// The characters of `s`, in order.
pub fn chars_of(s: &str) -> (out: Vec<char>)
    ensures
        out@ == s@,
{
    broadcast use vstd::string::group_string_axioms;

    let mut out: Vec<char> = Vec::new();
    let mut it = s.chars();
    loop
        invariant
            out@ + it.remaining() == s@,
        ensures
            out@ == s@,
        decreases s@.len() - out@.len(),
    {
        match it.next() {
            Some(c) => {
                out.push(c);
            },
            None => {
                assert(out@ + it.remaining() =~= out@);
                break ;
            },
        }
    }
    out
}

/// Whether two strings hold the same characters.
pub fn str_eq(a: &str, b: &str) -> (eq: bool)
    ensures
        eq == (a@ == b@),
{
    let x = chars_of(a);
    let y = chars_of(b);
    if x.len() != y.len() {
        return false;
    }
    let mut i: usize = 0;
    while i < x.len()
        invariant
            i <= x.len() == y.len(),
            x@ == a@,
            y@ == b@,
            forall|k: int| 0 <= k < i ==> x@[k] == y@[k],
        decreases x.len() - i,
    {
        if x[i] != y[i] {
            return false;
        }
        i += 1;
    }
    assert(x@ =~= y@);
    true
}

/// The string made of the characters `s[from..to]`.
pub fn string_of(s: &[char], from: usize, to: usize) -> (out: String)
    requires
        from <= to <= s.len(),
    ensures
        out@ == s@.subrange(from as int, to as int),
{
    let mut out = String::new();
    let mut i: usize = from;
    while i < to
        invariant
            from <= i <= to <= s.len(),
            out@ == s@.subrange(from as int, i as int),
        decreases to - i,
    {
        out.push(s[i]);
        i += 1;
        assert(s@.subrange(from as int, i as int) =~= s@.subrange(from as int, i - 1).push(
            s@[i - 1],
        ));
    }
    out
}

/// Whether `c` has the Unicode property `White_Space`.
pub open spec fn is_whitespace(c: char) -> bool {
    let n = c as u32;
    ||| 0x09 <= n <= 0x0D
    ||| n == 0x20
    ||| n == 0x85
    ||| n == 0xA0
    ||| n == 0x1680
    ||| 0x2000 <= n <= 0x200A
    ||| n == 0x2028
    ||| n == 0x2029
    ||| n == 0x202F
    ||| n == 0x205F
    ||| n == 0x3000
}

/// Tests a character for the Unicode property `White_Space`.
pub fn is_whitespace_char(c: char) -> (b: bool)
    ensures
        b == is_whitespace(c),
{
    let n: u32 = c as u32;
    (0x09 <= n && n <= 0x0D) || n == 0x20 || n == 0x85 || n == 0xA0 || n == 0x1680 || (0x2000 <= n
        && n <= 0x200A) || n == 0x2028 || n == 0x2029 || n == 0x202F || n == 0x205F || n == 0x3000
}

/// `s` without its leading whitespace.
pub open spec fn trim_start(s: Seq<char>) -> Seq<char>
    decreases s.len(),
{
    if s.len() > 0 && is_whitespace(s[0]) {
        trim_start(s.drop_first())
    } else {
        s
    }
}

/// `s` without its trailing whitespace.
pub open spec fn trim_end(s: Seq<char>) -> Seq<char>
    decreases s.len(),
{
    if s.len() > 0 && is_whitespace(s.last()) {
        trim_end(s.drop_last())
    } else {
        s
    }
}

/// `s` without leading and trailing whitespace.
pub open spec fn trim(s: Seq<char>) -> Seq<char> {
    trim_end(trim_start(s))
}

/// A cut after leading whitespace and before a non-whitespace character is
/// where `trim_start` cuts.
pub proof fn lemma_trim_start_at(s: Seq<char>, k: int)
    requires
        0 <= k <= s.len(),
        forall|i: int| 0 <= i < k ==> is_whitespace(s[i]),
        k < s.len() ==> !is_whitespace(s[k]),
    ensures
        trim_start(s) == s.subrange(k, s.len() as int),
    decreases s.len(),
{
    if k == 0 {
        assert(s.subrange(0, s.len() as int) =~= s);
    } else {
        let t = s.drop_first();
        assert forall|i: int| 0 <= i < k - 1 implies is_whitespace(t[i]) by {
            assert(t[i] == s[i + 1]);
        }
        lemma_trim_start_at(t, k - 1);
        assert(t.subrange(k - 1, t.len() as int) =~= s.subrange(k, s.len() as int));
    }
}

/// A cut before trailing whitespace and after a non-whitespace character is
/// where `trim_end` cuts.
pub proof fn lemma_trim_end_at(s: Seq<char>, k: int)
    requires
        0 <= k <= s.len(),
        forall|i: int| k <= i < s.len() ==> is_whitespace(s[i]),
        k > 0 ==> !is_whitespace(s[k - 1]),
    ensures
        trim_end(s) == s.subrange(0, k),
    decreases s.len(),
{
    if k == s.len() {
        assert(s.subrange(0, s.len() as int) =~= s);
    } else {
        let t = s.drop_last();
        lemma_trim_end_at(t, k);
        assert(t.subrange(0, k) =~= s.subrange(0, k));
    }
}

/// The bounds of `trim(s)` within `s`.
pub fn trim_range(s: &[char]) -> (r: (usize, usize))
    ensures
        r.0 <= r.1 <= s.len(),
        trim(s@) == s@.subrange(r.0 as int, r.1 as int),
        trim_start(s@) == s@.subrange(r.0 as int, s.len() as int),
{
    let n = s.len();
    let mut a: usize = 0;
    while a < n && is_whitespace_char(s[a])
        invariant
            a <= n == s.len(),
            forall|i: int| 0 <= i < a ==> is_whitespace(s@[i]),
        decreases n - a,
    {
        a += 1;
    }
    let mut b: usize = n;
    while b > a && is_whitespace_char(s[b - 1])
        invariant
            a <= b <= n == s.len(),
            forall|i: int| b <= i < n ==> is_whitespace(s@[i]),
        decreases b,
    {
        b -= 1;
    }
    proof {
        lemma_trim_start_at(s@, a as int);
        let t = s@.subrange(a as int, n as int);
        assert forall|i: int| b - a <= i < t.len() implies is_whitespace(t[i]) by {
            assert(t[i] == s@[i + a]);
        }
        if b > a {
            assert(t[b - a - 1] == s@[b - 1]);
        }
        lemma_trim_end_at(t, b - a);
        assert(t.subrange(0, b - a) =~= s@.subrange(a as int, b as int));
    }
    (a, b)
}

/// Whether `s[from..to]` starts with `pat`.
pub fn has_prefix_at(s: &[char], from: usize, to: usize, pat: &str) -> (b: bool)
    requires
        from <= to <= s.len(),
    ensures
        b == pat@.is_prefix_of(s@.subrange(from as int, to as int)),
{
    broadcast use vstd::string::group_string_axioms;

    let ghost window = s@.subrange(from as int, to as int);
    let mut it = pat.chars();
    let mut i: usize = from;
    let ghost mut seen: Seq<char> = Seq::empty();
    loop
        invariant
            from <= i <= to <= s.len(),
            window == s@.subrange(from as int, to as int),
            seen + it.remaining() == pat@,
            seen.len() == i - from,
            seen == window.subrange(0, i - from),
        decreases pat@.len() - seen.len(),
    {
        match it.next() {
            Some(c) => {
                if i >= to {
                    assert(pat@.len() > window.len());
                    return false;
                }
                if s[i] != c {
                    proof {
                        assert(pat@[i - from] == c);
                        assert(window[i - from] == s@[i as int]);
                        if pat@.is_prefix_of(window) {
                            assert(window.subrange(0, pat@.len() as int)[i - from] == pat@[i
                                - from]);
                        }
                    }
                    return false;
                }
                proof {
                    assert(window.subrange(0, i + 1 - from) =~= seen.push(c));
                    seen = seen.push(c);
                }
                i += 1;
            },
            None => {
                assert(seen + it.remaining() =~= seen);
                return true;
            },
        }
    }
}

/// `s` with every leading repetition of `pat` removed.
pub open spec fn strip_repeated_prefix(s: Seq<char>, pat: Seq<char>) -> Seq<char>
    decreases s.len(),
{
    if pat.len() > 0 && pat.is_prefix_of(s) {
        strip_repeated_prefix(s.skip(pat.len() as int), pat)
    } else {
        s
    }
}

/// The start of `strip_repeated_prefix(s[from..to], pat)` within `s`.
pub fn skip_repeated_prefix(s: &[char], from: usize, to: usize, pat: &str) -> (k: usize)
    requires
        from <= to <= s.len(),
    ensures
        from <= k <= to,
        strip_repeated_prefix(s@.subrange(from as int, to as int), pat@) == s@.subrange(
            k as int,
            to as int,
        ),
{
    let width = pat.unicode_len();
    let mut k: usize = from;
    if width == 0 {
        return k;
    }
    while has_prefix_at(s, k, to, pat)
        invariant
            from <= k <= to <= s.len(),
            width == pat@.len(),
            width > 0,
            strip_repeated_prefix(s@.subrange(from as int, to as int), pat@)
                == strip_repeated_prefix(s@.subrange(k as int, to as int), pat@),
        decreases to - k,
    {
        assert(s@.subrange(k as int, to as int).skip(width as int) =~= s@.subrange(
            k + width,
            to as int,
        ));
        k += width;
    }
    k
}

/// Index of the first line feed in `s`, or `s.len()` if there is none.
pub open spec fn first_newline(s: Seq<char>) -> nat
    decreases s.len(),
{
    if s.len() == 0 || s[0] == '\n' {
        0
    } else {
        1 + first_newline(s.drop_first())
    }
}

/// `first_newline(s)` is the only index that has no line feed before it and
/// either a line feed at it or the end of `s`.
pub proof fn lemma_first_newline(s: Seq<char>, k: int)
    requires
        0 <= k <= s.len(),
        forall|i: int| 0 <= i < k ==> s[i] != '\n',
        k < s.len() ==> s[k] == '\n',
    ensures
        first_newline(s) == k,
    decreases s.len(),
{
    if k > 0 {
        let t = s.drop_first();
        assert forall|i: int| 0 <= i < k - 1 implies t[i] != '\n' by {
            assert(t[i] == s[i + 1]);
        }
        lemma_first_newline(t, k - 1);
    }
}

/// No line feed stands before `first_newline(s)`.
pub proof fn lemma_first_newline_bounds(s: Seq<char>)
    ensures
        first_newline(s) <= s.len(),
        forall|i: int| 0 <= i < first_newline(s) ==> s[i] != '\n',
        first_newline(s) < s.len() ==> s[first_newline(s) as int] == '\n',
    decreases s.len(),
{
    if s.len() == 0 || s[0] == '\n' {
    } else {
        let t = s.drop_first();
        lemma_first_newline_bounds(t);
        assert forall|i: int| 0 <= i < first_newline(s) implies s[i] != '\n' by {
            if i > 0 {
                assert(s[i] == t[i - 1]);
            }
        }
    }
}

/// `line` without one trailing carriage return.
pub open spec fn strip_cr(line: Seq<char>) -> Seq<char> {
    if line.len() > 0 && line.last() == '\r' {
        line.drop_last()
    } else {
        line
    }
}

/// The lines of `s`. A line ends at a line feed or at the end of the text. The
/// line feed is not part of the line, nor is a carriage return directly before
/// it. Text that ends with a line feed has no empty last line, and a carriage
/// return at the very end of the text stays.
pub open spec fn lines(s: Seq<char>) -> Seq<Seq<char>>
    decreases s.len(),
{
    if s.len() == 0 {
        Seq::empty()
    } else {
        let e = first_newline(s);
        if e >= s.len() {
            seq![s]
        } else {
            seq![strip_cr(s.take(e as int))] + lines(s.skip(e as int + 1))
        }
    }
}

/// `s` cut at every line feed. Unlike `lines`, nothing but the line feeds is
/// dropped, and the result always has a last piece, which may be empty.
pub open spec fn split_lines(s: Seq<char>) -> Seq<Seq<char>>
    decreases s.len(),
{
    let e = first_newline(s);
    if e >= s.len() {
        seq![s]
    } else {
        seq![s.take(e as int)] + split_lines(s.skip(e as int + 1))
    }
}

/// The lines `ls` with a line feed between each two neighbours.
pub open spec fn join_lines(ls: Seq<Seq<char>>) -> Seq<char>
    decreases ls.len(),
{
    if ls.len() == 0 {
        Seq::empty()
    } else if ls.len() == 1 {
        ls[0]
    } else {
        join_lines(ls.drop_last()) + seq!['\n'] + ls.last()
    }
}

/// Whether no element of `ls` holds a line feed.
pub open spec fn single_lines(ls: Seq<Seq<char>>) -> bool {
    forall|i: int| 0 <= i < ls.len() ==> !(#[trigger] ls[i]).contains('\n')
}

/// Every element of `lines(s)` is a single line.
pub proof fn lemma_lines_are_single(s: Seq<char>)
    ensures
        single_lines(lines(s)),
    decreases s.len(),
{
    if s.len() > 0 {
        lemma_first_newline_bounds(s);
        let e = first_newline(s) as int;
        if e >= s.len() {
            assert(!s.contains('\n'));
        } else {
            let head = strip_cr(s.take(e));
            assert(!head.contains('\n'));
            lemma_lines_are_single(s.skip(e + 1));
            let rest = lines(s.skip(e + 1));
            assert forall|i: int| 0 <= i < lines(s).len() implies !(#[trigger] lines(
                s,
            )[i]).contains('\n') by {
                if i > 0 {
                    assert(lines(s)[i] == rest[i - 1]);
                }
            }
        }
    }
}

/// Joining with a line feed in front of a single line, seen from the front:
/// the first piece of the split is the first line.
proof fn lemma_join_front(ls: Seq<Seq<char>>)
    requires
        ls.len() >= 2,
    ensures
        join_lines(ls) == ls[0] + seq!['\n'] + join_lines(ls.drop_first()),
    decreases ls.len(),
{
    if ls.len() == 2 {
        assert(ls.drop_last() =~= seq![ls[0]]);
        assert(ls.drop_first() =~= seq![ls[1]]);
        assert(join_lines(ls.drop_last()) == ls[0]);
        assert(join_lines(ls.drop_first()) == ls[1]);
    } else {
        let init = ls.drop_last();
        lemma_join_front(init);
        assert(init.drop_first() =~= ls.drop_first().drop_last());
        assert(ls.drop_first().last() == ls.last());
        assert(join_lines(ls) =~= ls[0] + seq!['\n'] + join_lines(ls.drop_first()));
    }
}

/// Cutting joined lines at the line feeds gives the lines back.
pub proof fn lemma_split_join(ls: Seq<Seq<char>>)
    requires
        ls.len() >= 1,
        single_lines(ls),
    ensures
        split_lines(join_lines(ls)) == ls,
    decreases ls.len(),
{
    let first = ls[0];
    assert(!first.contains('\n'));
    if ls.len() == 1 {
        lemma_first_newline(first, first.len() as int);
        assert(split_lines(first) =~= ls);
    } else {
        lemma_join_front(ls);
        let rest = ls.drop_first();
        let joined = join_lines(ls);
        assert(joined == first + seq!['\n'] + join_lines(rest));
        assert forall|i: int| 0 <= i < first.len() implies joined[i] != '\n' by {
            assert(joined[i] == first[i]);
        }
        lemma_first_newline(joined, first.len() as int);
        assert(joined.take(first.len() as int) =~= first);
        assert(joined.skip(first.len() as int + 1) =~= join_lines(rest));
        assert forall|i: int| 0 <= i < rest.len() implies !(#[trigger] rest[i]).contains('\n') by {
            assert(rest[i] == ls[i + 1]);
        }
        lemma_split_join(rest);
        assert(split_lines(joined) =~= ls);
    }
}

/// Whether joining `ls` with line feeds and taking the lines of the result
/// gives `ls` back: there is a line, no line holds a line feed, none but the
/// last ends with a carriage return, and the last is not empty.
pub open spec fn rejoinable(ls: Seq<Seq<char>>) -> bool {
    &&& ls.len() >= 1
    &&& single_lines(ls)
    &&& ls.last().len() > 0
    &&& forall|i: int|
        0 <= i < ls.len() - 1 ==> !((#[trigger] ls[i]).len() > 0 && ls[i].last() == '\r')
}

/// The lines of joined lines are the lines that were joined.
pub proof fn lemma_lines_join(ls: Seq<Seq<char>>)
    requires
        rejoinable(ls),
    ensures
        lines(join_lines(ls)) == ls,
    decreases ls.len(),
{
    let first = ls[0];
    assert(!first.contains('\n'));
    if ls.len() == 1 {
        lemma_first_newline(first, first.len() as int);
        assert(lines(first) =~= ls);
    } else {
        lemma_join_front(ls);
        let rest = ls.drop_first();
        let joined = join_lines(ls);
        assert forall|i: int| 0 <= i < first.len() implies joined[i] != '\n' by {
            assert(joined[i] == first[i]);
        }
        lemma_first_newline(joined, first.len() as int);
        assert(joined.take(first.len() as int) =~= first);
        assert(joined.skip(first.len() as int + 1) =~= join_lines(rest));
        assert(rejoinable(rest)) by {
            assert forall|i: int| 0 <= i < rest.len() implies !(#[trigger] rest[i]).contains(
                '\n',
            ) by {
                assert(rest[i] == ls[i + 1]);
            }
            assert forall|i: int| 0 <= i < rest.len() - 1 implies !((#[trigger] rest[i]).len() > 0
                && rest[i].last() == '\r') by {
                assert(rest[i] == ls[i + 1]);
            }
            assert(rest.last() == ls.last());
        }
        lemma_lines_join(rest);
        assert(strip_cr(first) == first);
        assert(lines(joined) =~= ls);
    }
}

/// The lines of `s`, each as a string of its own.
pub fn lines_of(s: &str) -> (out: Vec<String>)
    ensures
        views(out@) == lines(s@),
{
    let chars = chars_of(s);
    let n = chars.len();
    let mut out: Vec<String> = Vec::new();
    let mut i: usize = 0;
    proof {
        assert(chars@.skip(0) =~= chars@);
        assert(views(out@) + lines(chars@) =~= lines(chars@));
    }
    while i < n
        invariant
            i <= n == chars.len(),
            views(out@) + lines(chars@.skip(i as int)) == lines(chars@),
        decreases n - i,
    {
        let ghost rest = chars@.skip(i as int);
        let mut j: usize = i;
        while j < n && chars[j] != '\n'
            invariant
                i <= j <= n == chars.len(),
                forall|k: int| i <= k < j ==> chars@[k] != '\n',
            decreases n - j,
        {
            j += 1;
        }
        proof {
            assert forall|k: int| 0 <= k < j - i implies rest[k] != '\n' by {
                assert(rest[k] == chars@[k + i]);
            }
            lemma_first_newline(rest, j - i);
        }
        let ghost before = views(out@);
        if j == n {
            let line = string_of(chars.as_slice(), i, n);
            proof {
                assert(chars@.subrange(i as int, n as int) =~= rest);
                assert(views(out@.push(line)) =~= before.push(rest));
                assert(lines(chars@.skip(n as int)) =~= Seq::<Seq<char>>::empty());
                assert(before.push(rest) + Seq::<Seq<char>>::empty() =~= before + seq![rest]);
            }
            out.push(line);
            i = n;
        } else {
            let end = if j > i && chars[j - 1] == '\r' {
                j - 1
            } else {
                j
            };
            let line = string_of(chars.as_slice(), i, end);
            proof {
                let raw = rest.take(j - i);
                assert(raw =~= chars@.subrange(i as int, j as int));
                if j > i {
                    assert(raw.last() == chars@[j - 1]);
                }
                assert(strip_cr(raw) =~= chars@.subrange(i as int, end as int));
                assert(rest.skip(j - i + 1) =~= chars@.skip(j + 1));
                assert(views(out@.push(line)) =~= before.push(strip_cr(raw)));
                assert(before.push(strip_cr(raw)) + lines(chars@.skip(j + 1)) =~= before + (
                seq![strip_cr(raw)] + lines(chars@.skip(j + 1))));
            }
            out.push(line);
            i = j + 1;
        }
    }
    proof {
        assert(lines(chars@.skip(i as int)) =~= Seq::<Seq<char>>::empty());
        assert(views(out@) + Seq::<Seq<char>>::empty() =~= views(out@));
    }
    out
}

/// The character that writes the digit `d`.
pub open spec fn digit_char(d: int) -> char {
    seq!['0', '1', '2', '3', '4', '5', '6', '7', '8', '9'][d]
}

/// `n` written in decimal, without sign or leading zeros.
pub open spec fn decimal(n: nat) -> Seq<char>
    decreases n,
{
    if n < 10 {
        seq![digit_char(n as int)]
    } else {
        decimal(n / 10).push(digit_char((n % 10) as int))
    }
}

/// Appends `n` in decimal to `out`.
pub fn push_decimal(out: &mut String, n: u64)
    ensures
        final(out)@ == old(out)@ + decimal(n as nat),
    decreases n,
{
    if n >= 10 {
        push_decimal(out, n / 10);
    }
    let d = n % 10;
    let c = if d == 0 {
        '0'
    } else if d == 1 {
        '1'
    } else if d == 2 {
        '2'
    } else if d == 3 {
        '3'
    } else if d == 4 {
        '4'
    } else if d == 5 {
        '5'
    } else if d == 6 {
        '6'
    } else if d == 7 {
        '7'
    } else if d == 8 {
        '8'
    } else {
        '9'
    };
    out.push(c);
    proof {
        assert(c == digit_char(d as int));
        if n >= 10 {
            assert(old(out)@ + decimal((n / 10) as nat).push(c) =~= (old(out)@ + decimal(
                (n / 10) as nat,
            )).push(c));
        } else {
            assert(old(out)@ + seq![c] =~= old(out)@.push(c));
        }
    }
}

} // verus!
