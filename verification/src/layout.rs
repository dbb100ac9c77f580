//! Layout utility: strips a uniform leading indentation from a block of
//! text, line by line, taking the indentation width from the first line.

use vstd::prelude::*;

verus! {

/// A character that counts as leading indentation.
pub open spec fn is_indent_char(c: char) -> bool {
    c == ' ' || c == '\t'
}

/// Length of the run of indentation characters at the front of `s`.
pub open spec fn indent_len(s: Seq<char>) -> nat
    decreases s.len(),
{
    if s.len() == 0 || !is_indent_char(s[0]) {
        0
    } else {
        1 + indent_len(s.drop_first())
    }
}

/// Index just past the first newline of `s`, or `s.len()` when `s` holds none.
pub open spec fn line_end(s: Seq<char>) -> int
    decreases s.len(),
{
    if s.len() == 0 {
        0
    } else if s[0] == '\n' {
        1
    } else {
        1 + line_end(s.drop_first())
    }
}

pub proof fn lemma_line_end_bounds(s: Seq<char>)
    ensures
        s.len() == 0 ==> line_end(s) == 0,
        s.len() > 0 ==> 1 <= line_end(s) <= s.len(),
    decreases s.len(),
{
    if s.len() > 0 && s[0] != '\n' {
        lemma_line_end_bounds(s.drop_first());
    }
}

pub proof fn lemma_indent_le_line_end(s: Seq<char>)
    ensures
        indent_len(s) <= line_end(s),
    decreases s.len(),
{
    if s.len() > 0 && is_indent_char(s[0]) {
        lemma_indent_le_line_end(s.drop_first());
    } else if s.len() > 0 {
        lemma_line_end_bounds(s);
    }
}

/// `s` with each line's leading indentation shortened by at most `first`
/// characters: a line loses `min(first, its own indentation)` characters,
/// so lines indented less than `first` keep their shorter indentation.
pub open spec fn strip_lines(s: Seq<char>, first: nat) -> Seq<char>
    decreases s.len(),
    via strip_lines_decreases
{
    if s.len() == 0 {
        Seq::empty()
    } else {
        let keep = if first as int <= indent_len(s) as int {
            first as int
        } else {
            indent_len(s) as int
        };
        let e = line_end(s);
        s.subrange(keep, e) + strip_lines(s.subrange(e, s.len() as int), first)
    }
}

#[via_fn]
proof fn strip_lines_decreases(s: Seq<char>, first: nat) {
    lemma_line_end_bounds(s);
}

/// The whole transform: the width stripped from every line is the
/// indentation of the first line.
pub open spec fn unindent(s: Seq<char>) -> Seq<char> {
    strip_lines(s, indent_len(s))
}

/// `s` without a single leading newline, when one is present.
pub open spec fn drop_leading_newline(s: Seq<char>) -> Seq<char> {
    if s.len() > 0 && s[0] == '\n' {
        s.drop_first()
    } else {
        s
    }
}

/// The run of indentation characters in `s` starting at `from` matches
/// `indent_len` of the corresponding suffix.
proof fn lemma_indent_len_char(s: Seq<char>, k: int)
    requires
        0 <= k <= s.len(),
        forall|j: int| 0 <= j < k ==> is_indent_char(#[trigger] s[j]),
        k == s.len() || !is_indent_char(s[k]),
    ensures
        indent_len(s) == k,
    decreases s.len(),
{
    if k > 0 {
        lemma_indent_len_char(s.drop_first(), k - 1);
    }
}

/// The position of the first newline of `s` pins down `line_end`.
proof fn lemma_line_end_char(s: Seq<char>, e: int)
    requires
        0 <= e <= s.len(),
        forall|j: int| 0 <= j < e - 1 ==> #[trigger] s[j] != '\n',
        e > 0 ==> s[e - 1] == '\n' || (e == s.len() && forall|j: int|
            0 <= j < s.len() ==> #[trigger] s[j] != '\n'),
        e == 0 ==> s.len() == 0,
    ensures
        line_end(s) == e,
    decreases s.len(),
{
    if e >= 1 && s[0] != '\n' {
        let t = s.drop_first();
        assert forall|j: int| 0 <= j < e - 2 implies #[trigger] t[j] != '\n' by {
            assert(t[j] == s[j + 1]);
        }
        if e - 1 > 0 && s[e - 1] != '\n' {
            assert forall|j: int| 0 <= j < t.len() implies #[trigger] t[j] != '\n' by {
                assert(t[j] == s[j + 1]);
            }
        }
        lemma_line_end_char(t, e - 1);
    }
}

/// Number of indentation characters at and after position `from` of `s`.
fn indent_count_from(s: &str, from: usize) -> (r: usize)
    requires
        from <= s@.len(),
    ensures
        r as nat == indent_len(s@.skip(from as int)),
        from + r <= s@.len(),
{
    let n = s.unicode_len();
    let mut i = from;
    while i < n
        invariant
            from <= i <= n,
            n == s@.len(),
            forall|j: int| from <= j < i ==> is_indent_char(#[trigger] s@[j]),
        decreases n - i,
    {
        let c = s.get_char(i);
        if !(c == ' ' || c == '\t') {
            proof {
                let t = s@.skip(from as int);
                assert forall|j: int| 0 <= j < i - from implies is_indent_char(
                    #[trigger] t[j],
                ) by {
                    assert(t[j] == s@[from + j]);
                }
                assert(t[i - from] == s@[i as int]);
                lemma_indent_len_char(t, i - from);
            }
            return i - from;
        }
        i = i + 1;
    }
    proof {
        let t = s@.skip(from as int);
        assert forall|j: int| 0 <= j < i - from implies is_indent_char(#[trigger] t[j]) by {
            assert(t[j] == s@[from + j]);
        }
        lemma_indent_len_char(t, i - from);
    }
    i - from
}

/// Absolute index just past the first newline at or after `from`, or the
/// end of `s` when no newline follows.
fn find_line_end(s: &str, from: usize) -> (r: usize)
    requires
        from <= s@.len(),
    ensures
        from <= r <= s@.len(),
        r - from == line_end(s@.skip(from as int)),
        from < s@.len() ==> from < r,
{
    let n = s.unicode_len();
    let mut i = from;
    while i < n
        invariant
            from <= i <= n,
            n == s@.len(),
            forall|j: int| from <= j < i ==> #[trigger] s@[j] != '\n',
        decreases n - i,
    {
        let c = s.get_char(i);
        if c == '\n' {
            proof {
                let t = s@.skip(from as int);
                let e = i + 1 - from;
                assert forall|j: int| 0 <= j < e - 1 implies #[trigger] t[j] != '\n' by {
                    assert(t[j] == s@[from + j]);
                }
                assert(t[e - 1] == s@[i as int]);
                lemma_line_end_char(t, e);
            }
            return i + 1;
        }
        i = i + 1;
    }
    proof {
        let t = s@.skip(from as int);
        assert forall|j: int| 0 <= j < t.len() implies #[trigger] t[j] != '\n' by {
            assert(t[j] == s@[from + j]);
        }
        lemma_line_end_char(t, n - from);
        lemma_line_end_bounds(t);
    }
    n
}

/// Removes a uniform leading indentation: the width is taken from the first
/// line, and each line loses at most that many of its own indentation
/// characters.  Pure text-in, text-out; never fails.
pub fn remove_leading_indentation(code: &str) -> (r: String)
    ensures
        r@ == unindent(code@),
{
    let n = code.unicode_len();
    let first = indent_count_from(code, 0);
    proof {
        assert(code@.skip(0) =~= code@);
    }
    let mut out = String::new();
    let mut pos: usize = 0;
    while pos < n
        invariant
            pos <= n,
            n == code@.len(),
            first as nat == indent_len(code@),
            out@ + strip_lines(code@.skip(pos as int), first as nat) == unindent(code@),
        decreases n - pos,
    {
        let ind = indent_count_from(code, pos);
        let keep = if first < ind {
            first
        } else {
            ind
        };
        let e = find_line_end(code, pos);
        proof {
            let t = code@.skip(pos as int);
            lemma_indent_le_line_end(t);
            assert(pos + keep <= e);
        }
        let ghost prev = out@;
        let piece = code.substring_char(pos + keep, e);
        out.append(piece);
        proof {
            let t = code@.skip(pos as int);
            let ke = if first as int <= indent_len(t) as int {
                first as int
            } else {
                indent_len(t) as int
            };
            assert(strip_lines(t, first as nat) == t.subrange(ke, line_end(t)) + strip_lines(
                t.subrange(line_end(t), t.len() as int),
                first as nat,
            ));
            assert(piece@ =~= t.subrange(ke, line_end(t)));
            assert(code@.skip(e as int) =~= t.subrange(line_end(t), t.len() as int));
            assert(out@ + strip_lines(code@.skip(e as int), first as nat) =~= prev + strip_lines(
                t,
                first as nat,
            ));
        }
        pos = e;
    }
    proof {
        assert(code@.skip(n as int) =~= Seq::<char>::empty());
        assert(out@ =~= out@ + strip_lines(code@.skip(n as int), first as nat));
    }
    out
}

/// Display form of a generated program: a single leading newline is
/// stripped when present, then the uniform indentation is removed.
pub fn layout_for_display(code: &str) -> (r: String)
    ensures
        r@ == unindent(drop_leading_newline(code@)),
{
    let n = code.unicode_len();
    if n > 0 && code.get_char(0) == '\n' {
        let rest = code.substring_char(1, n);
        proof {
            assert(rest@ =~= code@.drop_first());
        }
        remove_leading_indentation(rest)
    } else {
        remove_leading_indentation(code)
    }
}

/// Stripping is the identity on text whose first line carries no
/// indentation at all: every line then loses `min(0, its indentation) == 0`
/// characters.
pub proof fn lemma_strip_lines_zero(s: Seq<char>)
    ensures
        strip_lines(s, 0) == s,
    decreases s.len(),
{
    if s.len() > 0 {
        let e = line_end(s);
        lemma_line_end_bounds(s);
        lemma_strip_lines_zero(s.subrange(e, s.len() as int));
        assert(s.subrange(0, e) + s.subrange(e, s.len() as int) =~= s);
    }
}

/// Applying the layout utility to text that already has zero leading
/// indentation on its first line is a no-op.
pub proof fn lemma_unindent_noop(s: Seq<char>)
    requires
        indent_len(s) == 0,
    ensures
        unindent(s) == s,
{
    lemma_strip_lines_zero(s);
}

} // verus!
