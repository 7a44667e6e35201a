//! Properties that hold of every decode.
use vstd::prelude::*;
use crate::format::{
    IterState, FormatError, Progress, Picture, NEWLINE, is_comment, is_magic, step, run_lines,
    start, decode_lines, decode, join_lines, lines, lines_from,
};
use crate::text::{next_sep, lemma_next_sep_bounds};
use crate::image::Image;

verus! {

/// A successful decode holds exactly `width * height` pixels.
pub proof fn decoded_size_matches(b: Seq<u8>)
    ensures
        decode(b) is Ok ==> decode(b)->Ok_0.pixels.len() == decode(b)->Ok_0.width
            * decode(b)->Ok_0.height,
{
}

/// An image of width or height zero that decodes has no pixels.
pub proof fn zero_area_has_no_pixels(b: Seq<u8>)
    requires
        decode(b) is Ok,
        decode(b)->Ok_0.width == 0 || decode(b)->Ok_0.height == 0,
    ensures
        decode(b)->Ok_0.pixels.len() == 0,
{
    let m = decode(b)->Ok_0;
    assert(m.width * m.height == 0) by (nonlinear_arith)
        requires
            m.width == 0 || m.height == 0,
    ;
}

proof fn run_ignores_comment(ls: Seq<Seq<u8>>, k: int, c: Seq<u8>, p: Progress)
    requires
        is_comment(c),
        0 <= k <= ls.len(),
    ensures
        run_lines(ls.insert(k, c), p) == run_lines(ls, p),
    decreases k,
{
    let ins = ls.insert(k, c);
    if k == 0 {
        assert(ins.drop_first() =~= ls);
    } else {
        assert(ins[0] == ls[0]);
        assert(ins.drop_first() =~= ls.drop_first().insert(k - 1, c));
        match step(p, ls[0]) {
            Ok(q) => run_ignores_comment(ls.drop_first(), k - 1, c, q),
            Err(_) => {},
        }
    }
}

/// A comment line inserted anywhere among the lines leaves the decode as it was.
pub proof fn comment_lines_are_ignored(ls: Seq<Seq<u8>>, k: int, c: Seq<u8>)
    requires
        is_comment(c),
        0 <= k <= ls.len(),
    ensures
        decode_lines(ls.insert(k, c)) == decode_lines(ls),
{
    run_ignores_comment(ls, k, c, start());
}

proof fn run_rejects_magic(ls: Seq<Seq<u8>>, k: int, p: Progress)
    requires
        p.stage == IterState::Magic,
        0 <= k < ls.len(),
        forall|j: int| 0 <= j < k ==> is_comment(#[trigger] ls[j]),
        ls[k].len() > 0,
        !is_comment(ls[k]),
        !is_magic(ls[k]),
    ensures
        run_lines(ls, p) == Err::<Progress, FormatError>(FormatError::InvalidMagic),
    decreases k,
{
    if k > 0 {
        assert(is_comment(ls[0]));
        assert forall|j: int| 0 <= j < k - 1 implies is_comment(#[trigger] ls.drop_first()[j]) by {
            assert(ls.drop_first()[j] == ls[j + 1]);
        }
        run_rejects_magic(ls.drop_first(), k - 1, p);
    }
}

/// When the first line that is not a comment holds anything but `P3`, the
/// decode fails with `InvalidMagic`.
pub proof fn other_magic_is_rejected(ls: Seq<Seq<u8>>, k: int)
    requires
        0 <= k < ls.len(),
        forall|j: int| 0 <= j < k ==> is_comment(#[trigger] ls[j]),
        ls[k].len() > 0,
        !is_comment(ls[k]),
        !is_magic(ls[k]),
    ensures
        decode_lines(ls) == Err::<Picture, FormatError>(FormatError::InvalidMagic),
{
    run_rejects_magic(ls, k, start());
}

proof fn next_sep_shift(a: Seq<u8>, b: Seq<u8>, sep: u8, pos: int)
    requires
        0 <= pos <= b.len(),
    ensures
        next_sep(a + b, sep, a.len() + pos) == a.len() + next_sep(b, sep, pos),
    decreases b.len() - pos,
{
    if pos < b.len() {
        assert((a + b)[a.len() + pos] == b[pos]);
        next_sep_shift(a, b, sep, pos + 1);
    }
}

proof fn lines_from_shift(a: Seq<u8>, b: Seq<u8>, pos: nat)
    requires
        pos <= b.len(),
    ensures
        lines_from(a + b, a.len() + pos) == lines_from(b, pos),
    decreases b.len() - pos,
{
    if pos < b.len() {
        next_sep_shift(a, b, NEWLINE, pos as int);
        lemma_next_sep_bounds(b, NEWLINE, pos as int);
        let e = next_sep(b, NEWLINE, pos as int);
        assert((a + b).subrange((a.len() + pos) as int, a.len() + e) =~= b.subrange(pos as int, e));
        if e < b.len() {
            lines_from_shift(a, b, (e + 1) as nat);
            assert(a.len() + e + 1 == a.len() + (e + 1) as nat);
        }
    }
}

proof fn next_sep_reaches(s: Seq<u8>, sep: u8, i: int, m: int)
    requires
        0 <= i <= m < s.len(),
        s[m] == sep,
        forall|j: int| i <= j < m ==> s[j] != sep,
    ensures
        next_sep(s, sep, i) == m,
    decreases m - i,
{
    if i < m {
        next_sep_reaches(s, sep, i + 1, m);
    }
}

/// Splitting the bytes of a file into lines gives back the lines it was made of.
pub proof fn lines_of_joined(ls: Seq<Seq<u8>>)
    requires
        forall|i: int, j: int| 0 <= i < ls.len() && 0 <= j < ls[i].len() ==> #[trigger] ls[i][j] != NEWLINE,
    ensures
        lines(join_lines(ls)) == ls,
    decreases ls.len(),
{
    if ls.len() > 0 {
        let l0 = ls[0];
        let rest = ls.drop_first();
        let head = l0 + seq![NEWLINE];
        let s = join_lines(ls);
        assert(s == head + join_lines(rest));
        assert forall|j: int| 0 <= j < l0.len() implies s[j] != NEWLINE by {
            assert(s[j] == ls[0][j]);
        }
        assert(s[l0.len() as int] == NEWLINE);
        next_sep_reaches(s, NEWLINE, 0, l0.len() as int);
        assert(s.subrange(0, l0.len() as int) =~= l0);
        lines_from_shift(head, join_lines(rest), 0);
        assert forall|i: int, j: int| 0 <= i < rest.len() && 0 <= j < rest[i].len() implies #[trigger] rest[i][j] != NEWLINE by {
            assert(rest[i] == ls[i + 1]);
        }
        lines_of_joined(rest);
        assert(lines(s) =~= seq![l0] + rest);
        assert(ls =~= seq![l0] + rest);
    } else {
        assert(lines(join_lines(ls)) =~= ls);
    }
}

/// In the bytes of a file, a comment line inserted before any line, or at the
/// end, leaves the decode as it was.
pub proof fn comment_bytes_are_ignored(ls: Seq<Seq<u8>>, k: int, c: Seq<u8>)
    requires
        forall|i: int, j: int| 0 <= i < ls.len() && 0 <= j < ls[i].len() ==> #[trigger] ls[i][j] != NEWLINE,
        forall|j: int| 0 <= j < c.len() ==> #[trigger] c[j] != NEWLINE,
        is_comment(c),
        0 <= k <= ls.len(),
    ensures
        decode(join_lines(ls.insert(k, c))) == decode(join_lines(ls)),
{
    let ins = ls.insert(k, c);
    assert forall|i: int, j: int| 0 <= i < ins.len() && 0 <= j < ins[i].len() implies #[trigger] ins[i][j] != NEWLINE by {
        if i < k {
            assert(ins[i] == ls[i]);
        } else if i > k {
            assert(ins[i] == ls[i - 1]);
        }
    }
    lines_of_joined(ls);
    lines_of_joined(ins);
    comment_lines_are_ignored(ls, k, c);
}

/// Decoding is a function of the bytes: two images decoded from the same bytes
/// and name are the same image.
pub proof fn decoding_is_deterministic(b: Seq<u8>, first: Image, second: Image)
    requires
        decode(b) == Ok::<Picture, FormatError>(first.picture()),
        decode(b) == Ok::<Picture, FormatError>(second.picture()),
        first.file_name() == second.file_name(),
    ensures
        first.picture() == second.picture(),
{
}

} // verus!
