//! Partition of a cell's text into top-level declarations and statements.
//!
//! The classifier works line by line. It skips blank lines, comment openers,
//! shebang lines and module clauses, and gathers every other line, together
//! with the lines that follow it while braces stay open, into one block. A
//! block is a declaration if its first line starts like one, and a statement
//! otherwise. Braces are counted wherever they stand, inside string literals
//! and comments too.

use crate::text::{
    chars_of, has_prefix_at, join_lines, lemma_lines_are_single, lemma_lines_join,
    lemma_split_join, lines, lines_of, rejoinable, single_lines, skip_repeated_prefix, slice_views,
    split_lines, strip_repeated_prefix, trim, trim_range, views,
};
use vstd::prelude::*;
use vstd::string::StringExecFns;

verus! {

/// Whether a trimmed line is passed over at the top level: a blank line, the
/// opener of a line or block comment, a shebang line, or a module clause.
pub open spec fn is_skipped(t: Seq<char>) -> bool {
    ||| t.len() == 0
    ||| "//"@.is_prefix_of(t)
    ||| "/*"@.is_prefix_of(t)
    ||| "#!"@.is_prefix_of(t)
    ||| "module "@.is_prefix_of(t)
}

/// `line` without the modifiers in front of it: every leading `pub `, then
/// every leading `mut `, then every leading `static `.
pub open spec fn strip_modifiers(line: Seq<char>) -> Seq<char> {
    strip_repeated_prefix(
        strip_repeated_prefix(strip_repeated_prefix(line, "pub "@), "mut "@),
        "static "@,
    )
}

/// Whether `line` opens a top-level declaration: after its modifiers it
/// starts with an attribute marker or with one of the declaration keywords.
pub open spec fn is_declaration_start(line: Seq<char>) -> bool {
    let s = strip_modifiers(line);
    ||| "["@.is_prefix_of(s)
    ||| "@["@.is_prefix_of(s)
    ||| "fn "@.is_prefix_of(s)
    ||| "struct "@.is_prefix_of(s)
    ||| "interface "@.is_prefix_of(s)
    ||| "enum "@.is_prefix_of(s)
    ||| "type "@.is_prefix_of(s)
    ||| "const "@.is_prefix_of(s)
    ||| "const("@.is_prefix_of(s)
    ||| "import "@.is_prefix_of(s)
    ||| "__global"@.is_prefix_of(s)
}

/// How often `c` occurs in `s`.
pub open spec fn count_of(s: Seq<char>, c: char) -> nat
    decreases s.len(),
{
    if s.len() == 0 {
        0
    } else {
        count_of(s.drop_last(), c) + if s.last() == c {
            1nat
        } else {
            0nat
        }
    }
}

/// Opening braces minus closing braces of one line.
pub open spec fn brace_delta(line: Seq<char>) -> int {
    count_of(line, '{') - count_of(line, '}')
}

/// The brace depth after the lines `lines[start..end]`, counted from zero.
pub open spec fn depth_after(lines: Seq<Seq<char>>, start: int, end: int) -> int
    decreases end - start,
{
    if end <= start {
        0
    } else {
        depth_after(lines, start, end - 1) + brace_delta(lines[end - 1])
    }
}

/// How many more lines the block that starts at `start` takes, given that it
/// has taken `lines[start..i]`: none if the text ends there or the depth has
/// come back to zero or below, else line `i` and what follows from it.
pub open spec fn block_tail(lines: Seq<Seq<char>>, start: int, i: int) -> nat
    decreases lines.len() - i,
{
    if i >= lines.len() || depth_after(lines, start, i) <= 0 {
        0
    } else {
        1 + block_tail(lines, start, i + 1)
    }
}

/// The number of lines that the block starting at line `start` takes after
/// its first. A first line without an opening brace is a block by itself.
pub open spec fn block_extra(lines: Seq<Seq<char>>, start: int) -> nat {
    if !lines[start].contains('{') {
        0
    } else {
        block_tail(lines, start, start + 1)
    }
}

/// The number of lines of the block that starts at line `start`.
pub open spec fn block_len(lines: Seq<Seq<char>>, start: int) -> nat {
    1 + block_extra(lines, start)
}

/// The text of the block that starts at line `start`: its lines, joined by
/// line feeds.
pub open spec fn block_text(lines: Seq<Seq<char>>, start: int) -> Seq<char> {
    join_lines(lines.subrange(start, start + block_len(lines, start)))
}

/// Declarations and statements found in `lines[i..]`, each in the order in
/// which they start.
pub open spec fn classify_from(lines: Seq<Seq<char>>, i: int) -> (Seq<Seq<char>>, Seq<Seq<char>>)
    decreases lines.len() - i,
    via classify_from_terminates
{
    if i < 0 || i >= lines.len() {
        (Seq::empty(), Seq::empty())
    } else {
        let t = trim(lines[i]);
        if is_skipped(t) {
            classify_from(lines, i + 1)
        } else {
            let rest = classify_from(lines, i + 1 + block_extra(lines, i));
            if is_declaration_start(t) {
                (seq![block_text(lines, i)] + rest.0, rest.1)
            } else {
                (rest.0, seq![block_text(lines, i)] + rest.1)
            }
        }
    }
}

#[via_fn]
proof fn classify_from_terminates(lines: Seq<Seq<char>>, i: int) {
    if 0 <= i < lines.len() && lines[i].contains('{') {
        lemma_block_tail_bound(lines, i, i + 1);
    }
}

/// The declarations and the statements of a cell.
pub open spec fn classify_spec(code: Seq<char>) -> (Seq<Seq<char>>, Seq<Seq<char>>) {
    classify_from(lines(code), 0)
}

/// A block never runs past the end of the text.
pub proof fn lemma_block_tail_bound(lines: Seq<Seq<char>>, start: int, i: int)
    requires
        i <= lines.len(),
    ensures
        i + block_tail(lines, start, i) <= lines.len(),
    decreases lines.len() - i,
{
    if i >= lines.len() || depth_after(lines, start, i) <= 0 {
    } else {
        lemma_block_tail_bound(lines, start, i + 1);
    }
}

/// A block closes only where the brace depth has come back to zero or below,
/// or where the text ends. For a block that starts at line `start` with an
/// opening brace and takes `n` lines: after each shorter run of its lines,
/// `lines[start..k]`, the depth is still positive, and after all `n` either
/// the depth is zero or below or no line is left. A first line without an
/// opening brace is a block of one line.
pub proof fn lemma_block_closes_at_depth_zero(lines: Seq<Seq<char>>, start: int)
    requires
        0 <= start < lines.len(),
    ensures
        1 <= block_len(lines, start) <= lines.len() - start,
        !lines[start].contains('{') ==> block_len(lines, start) == 1,
        lines[start].contains('{') ==> {
            let n = block_len(lines, start) as int;
            &&& forall|k: int| start < k < start + n ==> depth_after(lines, start, k) > 0
            &&& (start + n == lines.len() || depth_after(lines, start, start + n) <= 0)
        },
{
    if lines[start].contains('{') {
        lemma_block_tail_bound(lines, start, start + 1);
        lemma_block_tail_open(lines, start, start + 1);
    }
}

/// While `block_tail` goes on from `i`, the depth stays positive, and where
/// it stops the depth is zero or below or the text has ended.
proof fn lemma_block_tail_open(lines: Seq<Seq<char>>, start: int, i: int)
    requires
        start < i <= lines.len(),
    ensures
        forall|k: int| i <= k < i + block_tail(lines, start, i) ==> depth_after(lines, start, k) > 0,
        i + block_tail(lines, start, i) == lines.len() || depth_after(
            lines,
            start,
            i + block_tail(lines, start, i),
        ) <= 0,
    decreases lines.len() - i,
{
    if i >= lines.len() || depth_after(lines, start, i) <= 0 {
    } else {
        lemma_block_tail_open(lines, start, i + 1);
    }
}

/// Counts the opening and the closing braces of a line.
fn count_braces(s: &[char]) -> (r: (usize, usize))
    ensures
        r.0 == count_of(s@, '{'),
        r.1 == count_of(s@, '}'),
{
    let mut opens: usize = 0;
    let mut closes: usize = 0;
    let mut i: usize = 0;
    while i < s.len()
        invariant
            i <= s.len(),
            opens == count_of(s@.take(i as int), '{'),
            closes == count_of(s@.take(i as int), '}'),
            opens <= i,
            closes <= i,
        decreases s.len() - i,
    {
        assert(s@.take(i + 1).drop_last() =~= s@.take(i as int));
        if s[i] == '{' {
            opens += 1;
        } else if s[i] == '}' {
            closes += 1;
        }
        i += 1;
    }
    assert(s@.take(i as int) =~= s@);
    (opens, closes)
}

/// Whether `c` occurs in `s`.
fn contains_char(s: &[char], c: char) -> (b: bool)
    ensures
        b == s@.contains(c),
{
    let mut i: usize = 0;
    while i < s.len()
        invariant
            i <= s.len(),
            forall|k: int| 0 <= k < i ==> s@[k] != c,
        decreases s.len() - i,
    {
        if s[i] == c {
            return true;
        }
        i += 1;
    }
    false
}

/// All opening braces of `lines[start..end]`.
spec fn opens_in(lines: Seq<Seq<char>>, start: int, end: int) -> nat
    decreases end - start,
{
    if end <= start {
        0
    } else {
        opens_in(lines, start, end - 1) + count_of(lines[end - 1], '{')
    }
}

/// All closing braces of `lines[start..end]`.
spec fn closes_in(lines: Seq<Seq<char>>, start: int, end: int) -> nat
    decreases end - start,
{
    if end <= start {
        0
    } else {
        closes_in(lines, start, end - 1) + count_of(lines[end - 1], '}')
    }
}

/// The depth is the number of opening braces less that of closing ones.
proof fn lemma_depth_is_difference(lines: Seq<Seq<char>>, start: int, end: int)
    ensures
        depth_after(lines, start, end) == opens_in(lines, start, end) - closes_in(lines, start, end),
    decreases end - start,
{
    if end > start {
        lemma_depth_is_difference(lines, start, end - 1);
    }
}

/// The block that starts at line `start`: its text and the number of its
/// lines.
fn collect(lines: &[&str], start: usize) -> (r: (String, usize))
    requires
        start < lines.len(),
    ensures
        r.1 == block_len(slice_views(lines@), start as int),
        r.0@ == block_text(slice_views(lines@), start as int),
{
    let ghost ls = slice_views(lines@);
    let first = chars_of(lines[start]);
    assert(ls[start as int] == lines@[start as int]@);
    if !contains_char(first.as_slice(), '{') {
        let mut block = String::new();
        block.append(lines[start]);
        proof {
            assert(ls.subrange(start as int, start + 1) =~= seq![ls[start as int]]);
            assert(Seq::<char>::empty() + lines@[start as int]@ =~= lines@[start as int]@);
        }
        return (block, 1);
    }
    let n = lines.len();
    // A line has at most `usize::MAX` braces and there are at most
    // `usize::MAX` lines, so both counts fit in 128 bits.
    let mut opens: u128 = 0;
    let mut closes: u128 = 0;
    let mut block = String::new();
    let mut i: usize = start;
    proof {
        assert(ls.subrange(start as int, start as int) =~= Seq::<Seq<char>>::empty());
    }
    loop
        invariant_except_break
            i < n,
            block_tail(ls, start as int, start + 1) == (i - start) + block_tail(
                ls,
                start as int,
                i + 1,
            ),
        invariant
            start <= i <= n == lines.len(),
            ls == slice_views(lines@),
            ls.len() == n,
            opens == opens_in(ls, start as int, i as int),
            closes == closes_in(ls, start as int, i as int),
            opens <= (i - start) * 0xFFFF_FFFF_FFFF_FFFF,
            closes <= (i - start) * 0xFFFF_FFFF_FFFF_FFFF,
            block@ == join_lines(ls.subrange(start as int, i as int)),
        ensures
            start < i <= n,
            i - start == 1 + block_tail(ls, start as int, start + 1),
        decreases n - i,
    {
        let line = chars_of(lines[i]);
        let (o, c) = count_braces(line.as_slice());
        proof {
            assert(ls[i as int] == lines@[i as int]@);
            assert((i - start) * 0xFFFF_FFFF_FFFF_FFFF + 0xFFFF_FFFF_FFFF_FFFF == (i + 1 - start)
                * 0xFFFF_FFFF_FFFF_FFFF) by (nonlinear_arith);
            assert((i + 1 - start) * 0xFFFF_FFFF_FFFF_FFFF <= 0xFFFF_FFFF_FFFF_FFFF
                * 0xFFFF_FFFF_FFFF_FFFF) by (nonlinear_arith)
                requires
                    0 <= i + 1 - start <= 0xFFFF_FFFF_FFFF_FFFF,
            ;
            lemma_depth_is_difference(ls, start as int, i + 1);
            let sub = ls.subrange(start as int, i + 1);
            assert(sub.drop_last() =~= ls.subrange(start as int, i as int));
            assert(sub.last() == ls[i as int]);
            reveal_strlit("\n");
            assert("\n"@ =~= seq!['\n']);
            if i == start {
                assert(Seq::<char>::empty() + ls[i as int] =~= ls[i as int]);
            }
        }
        opens = opens + (o as u128);
        closes = closes + (c as u128);
        if i > start {
            block.append("\n");
        }
        block.append(lines[i]);
        i += 1;
        if opens <= closes || i >= n {
            break ;
        }
    }
    (block, i - start)
}

/// Gathers the declaration block that starts at line `start`: that line
/// alone if it holds no opening brace, else the lines up to and including
/// the one after which the brace depth is zero or below, or up to the end of
/// the text. Returns the block's text and the number of its lines.
pub fn collect_block(lines: &[&str], start: usize) -> (r: (String, usize))
    requires
        start < lines.len(),
    ensures
        r.1 == block_len(slice_views(lines@), start as int),
        r.0@ == block_text(slice_views(lines@), start as int),
{
    collect(lines, start)
}

/// Gathers the statement that starts at line `start`, by the rule of
/// `collect_block`: a statement that opens a brace runs until the depth is
/// back at zero.
pub fn collect_statement(lines: &[&str], start: usize) -> (r: (String, usize))
    requires
        start < lines.len(),
    ensures
        r.1 == block_len(slice_views(lines@), start as int),
        r.0@ == block_text(slice_views(lines@), start as int),
{
    collect(lines, start)
}

/// What the top-level scan makes of one line of a cell.
pub enum LineClass {
    /// Passed over: not part of any block.
    Skipped,
    /// Part of a declaration block.
    Declaration,
    /// Part of a statement block.
    Statement,
}

/// The class of each of the lines `lines[i..]`, for a scan that is at the
/// top level at line `i`.
pub open spec fn line_classes_from(lines: Seq<Seq<char>>, i: int) -> Seq<LineClass>
    decreases lines.len() - i,
    via line_classes_from_terminates
{
    if i < 0 || i >= lines.len() {
        Seq::empty()
    } else {
        let t = trim(lines[i]);
        if is_skipped(t) {
            seq![LineClass::Skipped] + line_classes_from(lines, i + 1)
        } else {
            let class = if is_declaration_start(t) {
                LineClass::Declaration
            } else {
                LineClass::Statement
            };
            Seq::new(block_len(lines, i), |k: int| class) + line_classes_from(
                lines,
                i + 1 + block_extra(lines, i),
            )
        }
    }
}

#[via_fn]
proof fn line_classes_from_terminates(lines: Seq<Seq<char>>, i: int) {
    if 0 <= i < lines.len() && lines[i].contains('{') {
        lemma_block_tail_bound(lines, i, i + 1);
    }
}

/// The class of each line of a cell.
pub open spec fn line_classes(code: Seq<char>) -> Seq<LineClass> {
    line_classes_from(lines(code), 0)
}

/// The lines whose class is `want`, in their order in `lines`.
pub open spec fn lines_of_class(
    lines: Seq<Seq<char>>,
    classes: Seq<LineClass>,
    want: LineClass,
) -> Seq<Seq<char>>
    decreases lines.len(),
{
    if lines.len() == 0 || classes.len() != lines.len() {
        Seq::empty()
    } else {
        lines_of_class(lines.drop_last(), classes.drop_last(), want) + if classes.last() == want {
            seq![lines.last()]
        } else {
            Seq::empty()
        }
    }
}

/// The lines of all `blocks`, one block after the other, each block cut at
/// its line feeds.
pub open spec fn flatten_blocks(blocks: Seq<Seq<char>>) -> Seq<Seq<char>>
    decreases blocks.len(),
{
    if blocks.len() == 0 {
        Seq::empty()
    } else {
        split_lines(blocks[0]) + flatten_blocks(blocks.drop_first())
    }
}

/// Picking lines by class goes through concatenation.
proof fn lemma_lines_of_class_concat(
    a: Seq<Seq<char>>,
    ca: Seq<LineClass>,
    b: Seq<Seq<char>>,
    cb: Seq<LineClass>,
    want: LineClass,
)
    requires
        a.len() == ca.len(),
        b.len() == cb.len(),
    ensures
        lines_of_class(a + b, ca + cb, want) == lines_of_class(a, ca, want) + lines_of_class(
            b,
            cb,
            want,
        ),
    decreases b.len(),
{
    if b.len() == 0 {
        assert(a + b =~= a);
        assert(ca + cb =~= ca);
        assert(lines_of_class(a, ca, want) + lines_of_class(b, cb, want) =~= lines_of_class(
            a,
            ca,
            want,
        ));
    } else {
        lemma_lines_of_class_concat(a, ca, b.drop_last(), cb.drop_last(), want);
        assert((a + b).drop_last() =~= a + b.drop_last());
        assert((ca + cb).drop_last() =~= ca + cb.drop_last());
        assert((a + b).last() == b.last());
        assert((ca + cb).last() == cb.last());
        let tail = if cb.last() == want {
            seq![b.last()]
        } else {
            Seq::<Seq<char>>::empty()
        };
        assert(lines_of_class(a + b, ca + cb, want) =~= (lines_of_class(a, ca, want)
            + lines_of_class(b.drop_last(), cb.drop_last(), want)) + tail);
        assert(lines_of_class(b, cb, want) =~= lines_of_class(b.drop_last(), cb.drop_last(), want)
            + tail);
    }
}

/// Of lines that all have the class `class`, picking `class` keeps them all
/// and picking another class keeps none.
proof fn lemma_lines_of_one_class(a: Seq<Seq<char>>, class: LineClass, want: LineClass)
    ensures
        lines_of_class(a, Seq::new(a.len(), |k: int| class), want) == if class == want {
            a
        } else {
            Seq::<Seq<char>>::empty()
        },
    decreases a.len(),
{
    let ca = Seq::new(a.len(), |k: int| class);
    if a.len() == 0 {
        assert(a =~= Seq::<Seq<char>>::empty());
    } else {
        lemma_lines_of_one_class(a.drop_last(), class, want);
        assert(ca.drop_last() =~= Seq::new(a.drop_last().len(), |k: int| class));
        if class == want {
            assert(a.drop_last().push(a.last()) =~= a);
            assert(a.drop_last() + seq![a.last()] =~= a);
        }
    }
}

/// The partition law for the lines from `i` on.
proof fn lemma_partition_from(ls: Seq<Seq<char>>, i: int)
    requires
        0 <= i <= ls.len(),
        single_lines(ls),
    ensures
        line_classes_from(ls, i).len() == ls.len() - i,
        flatten_blocks(classify_from(ls, i).0) == lines_of_class(
            ls.skip(i),
            line_classes_from(ls, i),
            LineClass::Declaration,
        ),
        flatten_blocks(classify_from(ls, i).1) == lines_of_class(
            ls.skip(i),
            line_classes_from(ls, i),
            LineClass::Statement,
        ),
        forall|j: int|
            0 <= j < ls.len() - i && line_classes_from(ls, i)[j] == LineClass::Skipped
                ==> is_skipped(trim(#[trigger] ls[i + j])),
    decreases ls.len() - i,
{
    let classes = line_classes_from(ls, i);
    if i >= ls.len() {
        assert(ls.skip(i) =~= Seq::<Seq<char>>::empty());
    } else {
        let t = trim(ls[i]);
        if is_skipped(t) {
            lemma_partition_from(ls, i + 1);
            let rest = line_classes_from(ls, i + 1);
            let head = seq![ls[i]];
            let head_classes = seq![LineClass::Skipped];
            assert(ls.skip(i) =~= head + ls.skip(i + 1));
            assert(head_classes =~= Seq::new(head.len(), |k: int| LineClass::Skipped));
            lemma_lines_of_one_class(head, LineClass::Skipped, LineClass::Declaration);
            lemma_lines_of_one_class(head, LineClass::Skipped, LineClass::Statement);
            lemma_lines_of_class_concat(
                head,
                head_classes,
                ls.skip(i + 1),
                rest,
                LineClass::Declaration,
            );
            lemma_lines_of_class_concat(
                head,
                head_classes,
                ls.skip(i + 1),
                rest,
                LineClass::Statement,
            );
            assert(Seq::<Seq<char>>::empty() + lines_of_class(
                ls.skip(i + 1),
                rest,
                LineClass::Declaration,
            ) =~= lines_of_class(ls.skip(i + 1), rest, LineClass::Declaration));
            assert(Seq::<Seq<char>>::empty() + lines_of_class(
                ls.skip(i + 1),
                rest,
                LineClass::Statement,
            ) =~= lines_of_class(ls.skip(i + 1), rest, LineClass::Statement));
            assert forall|j: int|
                0 <= j < ls.len() - i && classes[j] == LineClass::Skipped implies is_skipped(
                trim(#[trigger] ls[i + j]),
            ) by {
                if j > 0 {
                    assert(classes[j] == rest[j - 1]);
                    assert(ls[i + j] == ls[(i + 1) + (j - 1)]);
                }
            }
        } else {
            lemma_block_closes_at_depth_zero(ls, i);
            let n = block_len(ls, i) as int;
            let class = if is_declaration_start(t) {
                LineClass::Declaration
            } else {
                LineClass::Statement
            };
            let other = if is_declaration_start(t) {
                LineClass::Statement
            } else {
                LineClass::Declaration
            };
            lemma_partition_from(ls, i + n);
            let rest = line_classes_from(ls, i + n);
            let head = ls.subrange(i, i + n);
            let head_classes = Seq::new(n as nat, |k: int| class);
            assert(classes == head_classes + rest);
            assert(ls.skip(i) =~= head + ls.skip(i + n));
            assert(single_lines(head)) by {
                assert forall|k: int| 0 <= k < head.len() implies !(#[trigger] head[k]).contains(
                    '\n',
                ) by {
                    assert(head[k] == ls[i + k]);
                }
            }
            lemma_split_join(head);
            assert(head_classes =~= Seq::new(head.len(), |k: int| class));
            lemma_lines_of_one_class(head, class, class);
            lemma_lines_of_one_class(head, class, other);
            lemma_lines_of_class_concat(head, head_classes, ls.skip(i + n), rest, class);
            lemma_lines_of_class_concat(head, head_classes, ls.skip(i + n), rest, other);
            let found = classify_from(ls, i);
            let after = classify_from(ls, i + n);
            let block = block_text(ls, i);
            assert(split_lines(block) == head);
            if is_declaration_start(t) {
                assert(found.0 == seq![block] + after.0);
                assert(found.0.drop_first() =~= after.0);
                assert(found.1 == after.1);
            } else {
                assert(found.1 == seq![block] + after.1);
                assert(found.1.drop_first() =~= after.1);
                assert(found.0 == after.0);
            }
            assert(Seq::<Seq<char>>::empty() + lines_of_class(ls.skip(i + n), rest, other)
                =~= lines_of_class(ls.skip(i + n), rest, other));
            assert forall|j: int|
                0 <= j < ls.len() - i && classes[j] == LineClass::Skipped implies is_skipped(
                trim(#[trigger] ls[i + j]),
            ) by {
                if j >= n {
                    assert(classes[j] == rest[j - n]);
                    assert(ls[i + j] == ls[(i + n) + (j - n)]);
                } else {
                    assert(classes[j] == head_classes[j]);
                }
            }
        }
    }
}

/// The classifier partitions the lines of a cell. Every line has one class.
/// The declaration blocks, cut back into lines, are exactly the lines of
/// class `Declaration`, in the cell's order, and the statement blocks are
/// exactly the lines of class `Statement`, in the cell's order: no line is
/// lost, doubled or moved within its class. A line of class `Skipped` is
/// blank, a comment opener, a shebang line or a module clause.
pub proof fn lemma_classify_partitions_lines(code: Seq<char>)
    ensures
        line_classes(code).len() == lines(code).len(),
        flatten_blocks(classify_spec(code).0) == lines_of_class(
            lines(code),
            line_classes(code),
            LineClass::Declaration,
        ),
        flatten_blocks(classify_spec(code).1) == lines_of_class(
            lines(code),
            line_classes(code),
            LineClass::Statement,
        ),
        forall|i: int|
            0 <= i < lines(code).len() && line_classes(code)[i] == LineClass::Skipped
                ==> is_skipped(trim(#[trigger] lines(code)[i])),
{
    let ls = lines(code);
    lemma_lines_are_single(code);
    lemma_partition_from(ls, 0);
    assert(ls.skip(0) =~= ls);
    assert forall|i: int|
        0 <= i < ls.len() && line_classes(code)[i] == LineClass::Skipped implies is_skipped(
        trim(#[trigger] ls[i]),
    ) by {
        assert(ls[i] == ls[0 + i]);
    }
}

/// The one block that a line of the given kind opens.
pub open spec fn single_block(is_declaration: bool, block: Seq<char>) -> (
    Seq<Seq<char>>,
    Seq<Seq<char>>,
) {
    if is_declaration {
        (seq![block], Seq::empty())
    } else {
        (Seq::empty(), seq![block])
    }
}

/// The depth within the lines of a part of the text is the depth within the
/// text.
proof fn lemma_depth_of_subrange(ls: Seq<Seq<char>>, i: int, n: int, k: int)
    requires
        0 <= i,
        i + n <= ls.len(),
        0 <= k <= n,
    ensures
        depth_after(ls.subrange(i, i + n), 0, k) == depth_after(ls, i, i + k),
    decreases k,
{
    if k > 0 {
        lemma_depth_of_subrange(ls, i, n, k - 1);
        assert(ls.subrange(i, i + n)[k - 1] == ls[i + k - 1]);
    }
}

/// Within the lines of a block alone, the block still takes all of them.
proof fn lemma_block_tail_of_block(ls: Seq<Seq<char>>, i: int, j: int)
    requires
        0 <= i < ls.len(),
        ls[i].contains('{'),
        1 <= j <= block_len(ls, i),
    ensures
        block_tail(ls.subrange(i, i + block_len(ls, i)), 0, j) == block_len(ls, i) - j,
    decreases block_len(ls, i) - j,
{
    lemma_block_closes_at_depth_zero(ls, i);
    let n = block_len(ls, i) as int;
    let sub = ls.subrange(i, i + n);
    if j < n {
        lemma_depth_of_subrange(ls, i, n, j);
        assert(depth_after(ls, i, i + j) > 0);
        lemma_block_tail_of_block(ls, i, j + 1);
    }
}

/// The classifier is idempotent on its blocks. The lines of a block,
/// classified by themselves, are that one block again, of the same kind:
/// a declaration stays one declaration and a statement one statement.
pub proof fn lemma_block_classifies_to_itself(ls: Seq<Seq<char>>, i: int)
    requires
        0 <= i < ls.len(),
        !is_skipped(trim(ls[i])),
    ensures
        classify_from(ls.subrange(i, i + block_len(ls, i)), 0) == single_block(
            is_declaration_start(trim(ls[i])),
            block_text(ls, i),
        ),
{
    lemma_block_closes_at_depth_zero(ls, i);
    let n = block_len(ls, i) as int;
    let sub = ls.subrange(i, i + n);
    assert(sub[0] == ls[i]);
    if ls[i].contains('{') {
        lemma_block_tail_of_block(ls, i, 1);
    }
    assert(block_len(sub, 0) == n);
    assert(sub.subrange(0, n) =~= sub);
    assert(block_text(sub, 0) == block_text(ls, i));
    let rest = classify_from(sub, n);
    assert(rest.0 =~= Seq::<Seq<char>>::empty());
    assert(rest.1 =~= Seq::<Seq<char>>::empty());
    let found = classify_from(sub, 0);
    let block = block_text(ls, i);
    if is_declaration_start(trim(ls[i])) {
        assert(found.0 =~= seq![block]);
        assert(found.1 =~= Seq::<Seq<char>>::empty());
    } else {
        assert(found.0 =~= Seq::<Seq<char>>::empty());
        assert(found.1 =~= seq![block]);
    }
}

/// The same for the text of a block: given to the classifier as a cell of
/// its own, it comes back as one block of the same kind, whenever the lines
/// of the block are what the lines of its text are. That is so unless the
/// block ends in an empty line or one of its lines but the last ends with a
/// carriage return.
pub proof fn lemma_block_text_classifies_to_itself(ls: Seq<Seq<char>>, i: int)
    requires
        0 <= i < ls.len(),
        !is_skipped(trim(ls[i])),
        rejoinable(ls.subrange(i, i + block_len(ls, i))),
    ensures
        classify_spec(block_text(ls, i)) == single_block(
            is_declaration_start(trim(ls[i])),
            block_text(ls, i),
        ),
{
    lemma_lines_join(ls.subrange(i, i + block_len(ls, i)));
    lemma_block_classifies_to_itself(ls, i);
}

/// Whether `s[from..to]` opens a top-level declaration.
fn declaration_starts_at(s: &[char], from: usize, to: usize) -> (b: bool)
    requires
        from <= to <= s.len(),
    ensures
        b == is_declaration_start(s@.subrange(from as int, to as int)),
{
    let k = skip_repeated_prefix(s, from, to, "pub ");
    let k = skip_repeated_prefix(s, k, to, "mut ");
    let k = skip_repeated_prefix(s, k, to, "static ");
    has_prefix_at(s, k, to, "[") || has_prefix_at(s, k, to, "@[") || has_prefix_at(s, k, to, "fn ")
        || has_prefix_at(s, k, to, "struct ") || has_prefix_at(s, k, to, "interface ")
        || has_prefix_at(s, k, to, "enum ") || has_prefix_at(s, k, to, "type ") || has_prefix_at(
        s,
        k,
        to,
        "const ",
    ) || has_prefix_at(s, k, to, "const(") || has_prefix_at(s, k, to, "import ") || has_prefix_at(
        s,
        k,
        to,
        "__global",
    )
}

/// Whether the trimmed line `s[from..to]` is passed over at the top level.
fn skipped_at(s: &[char], from: usize, to: usize) -> (b: bool)
    requires
        from <= to <= s.len(),
    ensures
        b == is_skipped(s@.subrange(from as int, to as int)),
{
    from == to || has_prefix_at(s, from, to, "//") || has_prefix_at(s, from, to, "/*")
        || has_prefix_at(s, from, to, "#!") || has_prefix_at(s, from, to, "module ")
}

/// Tells whether a line looks like the start of a top-level declaration:
/// after any `pub `, `mut ` and `static ` in front, it starts with `[`, `@[`,
/// or one of `fn `, `struct `, `interface `, `enum `, `type `, `const `,
/// `const(`, `import ` and `__global`.
pub fn is_top_level_decl(line: &str) -> (b: bool)
    ensures
        b == is_declaration_start(line@),
{
    let s = chars_of(line);
    assert(s@.subrange(0, s@.len() as int) =~= s@);
    declaration_starts_at(s.as_slice(), 0, s.len())
}

/// Splits the text of a cell into its declarations and its statements. Each
/// block is one string, with its lines joined by line feeds; both lists keep
/// the order in which the blocks start in the cell.
pub fn classify(code: &str) -> (r: (Vec<String>, Vec<String>))
    ensures
        views(r.0@) == classify_spec(code@).0,
        views(r.1@) == classify_spec(code@).1,
{
    let owned = lines_of(code);
    let n = owned.len();
    let mut refs: Vec<&str> = Vec::new();
    let mut k: usize = 0;
    while k < n
        invariant
            k <= n == owned.len(),
            refs.len() == k,
            forall|j: int| 0 <= j < k ==> (#[trigger] refs@[j])@ == owned@[j]@,
        decreases n - k,
    {
        refs.push(owned[k].as_str());
        k += 1;
    }
    let ghost ls = lines(code@);
    assert(slice_views(refs@) =~= ls);
    let mut decls: Vec<String> = Vec::new();
    let mut stmts: Vec<String> = Vec::new();
    let mut i: usize = 0;
    proof {
        assert(views(decls@) + classify_from(ls, 0).0 =~= classify_from(ls, 0).0);
        assert(views(stmts@) + classify_from(ls, 0).1 =~= classify_from(ls, 0).1);
    }
    while i < n
        invariant
            i <= n == refs.len(),
            ls == slice_views(refs@),
            ls.len() == n,
            views(decls@) + classify_from(ls, i as int).0 == classify_from(ls, 0).0,
            views(stmts@) + classify_from(ls, i as int).1 == classify_from(ls, 0).1,
        decreases n - i,
    {
        let line = chars_of(refs[i]);
        let (a, b) = trim_range(line.as_slice());
        assert(ls[i as int] == refs@[i as int]@);
        if skipped_at(line.as_slice(), a, b) {
            i += 1;
        } else {
            let is_decl = declaration_starts_at(line.as_slice(), a, b);
            proof {
                lemma_block_closes_at_depth_zero(ls, i as int);
            }
            let ghost rest = classify_from(ls, i + block_len(ls, i as int));
            if is_decl {
                let (block, taken) = collect_block(refs.as_slice(), i);
                proof {
                    assert(views(decls@.push(block)) =~= views(decls@).push(block@));
                    assert(views(decls@).push(block@) + rest.0 =~= views(decls@) + (seq![block@]
                        + rest.0));
                }
                decls.push(block);
                i += taken;
            } else {
                let (block, taken) = collect_statement(refs.as_slice(), i);
                proof {
                    assert(views(stmts@.push(block)) =~= views(stmts@).push(block@));
                    assert(views(stmts@).push(block@) + rest.1 =~= views(stmts@) + (seq![block@]
                        + rest.1));
                }
                stmts.push(block);
                i += taken;
            }
        }
    }
    proof {
        assert(views(decls@) + Seq::<Seq<char>>::empty() =~= views(decls@));
        assert(views(stmts@) + Seq::<Seq<char>>::empty() =~= views(stmts@));
    }
    (decls, stmts)
}

} // verus!
