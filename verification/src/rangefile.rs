//! Loading CIDR ranges from the text of a range file: one CIDR per line,
//! lines starting with `#` or `//` are comments, blank lines are ignored,
//! every other line must be valid CIDR notation or is rejected and
//! skipped.  A file with no valid range at all is an error.

use vstd::prelude::*;
use crate::range::parse_cidr_spec;

verus! {

/// ASCII whitespace, the characters trimmed from line ends.
pub open spec fn is_space(b: u8) -> bool {
    b == 32 || (9 <= b <= 13)
}

/// Length of the run of non-newline bytes starting at `i`.
pub open spec fn non_nl_run(s: Seq<u8>, i: int) -> nat
    decreases s.len() - i,
{
    if 0 <= i < s.len() && s[i] != 10 {
        (1 + non_nl_run(s, i + 1)) as nat
    } else {
        0
    }
}

/// The lines of `s` from position `pos` on, split at newline bytes, the
/// final line not needing a trailing newline.
pub open spec fn lines_from(s: Seq<u8>, pos: int) -> Seq<Seq<u8>>
    decreases s.len() - pos,
{
    if pos < 0 || pos >= s.len() {
        Seq::empty()
    } else {
        let e = pos + non_nl_run(s, pos);
        if e >= s.len() {
            seq![s.subrange(pos, s.len() as int)]
        } else {
            seq![s.subrange(pos, e)] + lines_from(s, e + 1)
        }
    }
}

/// Length of the run of whitespace bytes starting at `i`.
pub open spec fn leading_spaces(s: Seq<u8>, i: int) -> nat
    decreases s.len() - i,
{
    if 0 <= i < s.len() && is_space(s[i]) {
        (1 + leading_spaces(s, i + 1)) as nat
    } else {
        0
    }
}

/// Length of the run of whitespace bytes ending just before `j`.
pub open spec fn trailing_spaces(s: Seq<u8>, j: int) -> nat
    decreases j,
{
    if 0 < j <= s.len() && is_space(s[j - 1]) {
        (1 + trailing_spaces(s, j - 1)) as nat
    } else {
        0
    }
}

/// `s` with leading and trailing whitespace removed.
pub open spec fn trim_spec(s: Seq<u8>) -> Seq<u8> {
    let a = leading_spaces(s, 0) as int;
    let b = s.len() - trailing_spaces(s, s.len() as int);
    if a < b {
        s.subrange(a, b)
    } else {
        Seq::empty()
    }
}

/// A line the loader passes over silently: blank after trimming, or a
/// comment starting with `#` or `//`.
pub open spec fn is_blank_or_comment(line: Seq<u8>) -> bool {
    let t = trim_spec(line);
    t.len() == 0 || t[0] == 35 || (t.len() >= 2 && t[0] == 47 && t[1] == 47)
}

/// The trimmed CIDR lines kept from the first `k` lines.
pub open spec fn kept_upto(lines: Seq<Seq<u8>>, k: int) -> Seq<Seq<u8>>
    decreases k,
{
    if k <= 0 {
        Seq::empty()
    } else {
        kept_upto(lines, k - 1) + (if !is_blank_or_comment(lines[k - 1]) && parse_cidr_spec(
            trim_spec(lines[k - 1]),
        ) is Some {
            seq![trim_spec(lines[k - 1])]
        } else {
            Seq::empty()
        })
    }
}

/// The indices of the lines among the first `k` that are neither blank
/// nor comments nor valid CIDR: the lines the loader rejects.
pub open spec fn rejected_upto(lines: Seq<Seq<u8>>, k: int) -> Seq<usize>
    decreases k,
{
    if k <= 0 {
        Seq::empty()
    } else if !is_blank_or_comment(lines[k - 1]) && parse_cidr_spec(trim_spec(lines[k - 1]))
        is None {
        rejected_upto(lines, k - 1).push((k - 1) as usize)
    } else {
        rejected_upto(lines, k - 1)
    }
}

/// The loader's failure: a file with not one valid range.
#[derive(Clone, Copy, PartialEq, Eq, Structural, Debug)]
pub enum RangeFileError {
    NoValidRanges,
}

/// What loading a range file yields.
#[derive(Debug)]
pub struct RangeFile {
    /// The valid CIDR lines, trimmed, in file order.
    pub ranges: Vec<Vec<u8>>,
    /// Zero-based indices of the lines rejected as invalid CIDR.
    pub rejected: Vec<usize>,
}

proof fn lemma_non_nl_run_exact(s: Seq<u8>, i: int, j: int)
    requires
        0 <= i <= j <= s.len(),
        forall|k: int| i <= k < j ==> s[k] != 10,
        j == s.len() || s[j] == 10,
    ensures
        non_nl_run(s, i) == j - i,
    decreases j - i,
{
    if i < j {
        lemma_non_nl_run_exact(s, i + 1, j);
    }
}

proof fn lemma_leading_spaces_exact(s: Seq<u8>, i: int, j: int)
    requires
        0 <= i <= j <= s.len(),
        forall|k: int| i <= k < j ==> is_space(s[k]),
        j == s.len() || !is_space(s[j]),
    ensures
        leading_spaces(s, i) == j - i,
    decreases j - i,
{
    if i < j {
        lemma_leading_spaces_exact(s, i + 1, j);
    }
}

proof fn lemma_trailing_spaces_exact(s: Seq<u8>, i: int, j: int)
    requires
        0 <= i <= j <= s.len(),
        forall|k: int| i <= k < j ==> is_space(s[k]),
        i == 0 || !is_space(s[i - 1]),
    ensures
        trailing_spaces(s, j) == j - i,
    decreases j - i,
{
    if i < j {
        lemma_trailing_spaces_exact(s, i, j - 1);
    }
}

/// Whether the byte is trimmed whitespace.
fn space_byte(b: u8) -> (r: bool)
    ensures
        r == is_space(b),
{
    b == 32 || (9 <= b && b <= 13)
}

/// Copies `s[from..to]` into a fresh vector.
fn copy_range(s: &[u8], from: usize, to: usize) -> (v: Vec<u8>)
    requires
        from <= to <= s@.len(),
    ensures
        v@ == s@.subrange(from as int, to as int),
{
    let mut v: Vec<u8> = Vec::new();
    let mut i: usize = from;
    while i < to
        invariant
            from <= i <= to,
            to <= s@.len(),
            v@ == s@.subrange(from as int, i as int),
        decreases to - i,
    {
        v.push(s[i]);
        proof {
            assert(v@ =~= s@.subrange(from as int, i + 1));
        }
        i += 1;
    }
    v
}

/// Trims ASCII whitespace from both ends of the line.
pub fn trim_line(line: &[u8]) -> (v: Vec<u8>)
    ensures
        v@ == trim_spec(line@),
{
    let n = line.len();
    let mut a: usize = 0;
    while a < n && space_byte(line[a])
        invariant
            0 <= a <= n,
            n == line@.len(),
            forall|k: int| 0 <= k < a ==> is_space(line@[k]),
        decreases n - a,
    {
        a += 1;
    }
    proof {
        lemma_leading_spaces_exact(line@, 0, a as int);
    }
    let mut b: usize = n;
    while b > a && space_byte(line[b - 1])
        invariant
            a <= b <= n,
            n == line@.len(),
            forall|k: int| b <= k < n ==> is_space(line@[k]),
        decreases b,
    {
        b -= 1;
    }
    if b == a {
        proof {
            if a < n {
                // the leading scan stopped at a non-space byte, yet the
                // trailing scan walked past it: impossible
                assert(is_space(line@[a as int]));
                assert(false);
            }
            // the whole line is whitespace
            lemma_trailing_spaces_exact(line@, 0, n as int);
            assert(trim_spec(line@) =~= Seq::<u8>::empty());
        }
        Vec::new()
    } else {
        proof {
            lemma_trailing_spaces_exact(line@, b as int, n as int);
        }
        copy_range(line, a, b)
    }
}

/// Splits the file content into lines.
pub fn split_lines(content: &[u8]) -> (v: Vec<Vec<u8>>)
    ensures
        v.deep_view() == lines_from(content@, 0),
{
    let mut v: Vec<Vec<u8>> = Vec::new();
    split_from(content, 0, &mut v);
    proof {
        assert(v.deep_view() =~~= lines_from(content@, 0));
    }
    v
}

fn split_from(s: &[u8], pos: usize, out: &mut Vec<Vec<u8>>)
    requires
        pos <= s@.len(),
    ensures
        final(out).deep_view() == old(out).deep_view() + lines_from(s@, pos as int),
    decreases s@.len() - pos,
{
    let n = s.len();
    if pos >= n {
        proof {
            assert(out.deep_view() =~~= old(out).deep_view() + lines_from(s@, pos as int));
        }
        return;
    }
    let mut e: usize = pos;
    while e < n && s[e] != 10
        invariant
            pos <= e <= n,
            n == s@.len(),
            forall|k: int| pos <= k < e ==> s@[k] != 10,
        decreases n - e,
    {
        e += 1;
    }
    proof {
        lemma_non_nl_run_exact(s@, pos as int, e as int);
    }
    let line = copy_range(s, pos, e);
    let ghost base = out.deep_view();
    out.push(line);
    proof {
        assert(out.deep_view() =~~= base + seq![s@.subrange(pos as int, e as int)]);
    }
    if e < n {
        split_from(s, e + 1, out);
        proof {
            assert(out.deep_view() =~~= old(out).deep_view() + lines_from(s@, pos as int));
        }
    } else {
        proof {
            assert(out.deep_view() =~~= old(out).deep_view() + lines_from(s@, pos as int));
        }
    }
}

/// Loads the ranges in a range file's content: splits it into lines,
/// passes over blank lines and comments, keeps each trimmed valid CIDR
/// line, and reports the rejected lines by index.  Fails exactly when no
/// valid range remains.
pub fn load_ranges(content: &[u8]) -> (r: Result<RangeFile, RangeFileError>)
    ensures
        ({
            let lines = lines_from(content@, 0);
            let kept = kept_upto(lines, lines.len() as int);
            &&& (r is Ok <==> kept.len() > 0)
            &&& (r is Ok ==> {
                let f = r.unwrap();
                &&& f.ranges.deep_view() == kept
                &&& f.rejected@ == rejected_upto(lines, lines.len() as int)
            })
            &&& (r is Err ==> r->Err_0 == RangeFileError::NoValidRanges)
        }),
{
    let lines = split_lines(content);
    let ghost lns = lines.deep_view();
    let mut ranges: Vec<Vec<u8>> = Vec::new();
    let mut rejected: Vec<usize> = Vec::new();
    let n = lines.len();
    let mut i: usize = 0;
    while i < n
        invariant
            0 <= i <= n,
            n == lns.len(),
            lns == lines.deep_view(),
            lns == lines_from(content@, 0),
            ranges.deep_view() == kept_upto(lns, i as int),
            rejected@ == rejected_upto(lns, i as int),
        decreases n - i,
    {
        proof {
            assert(lns[i as int] == lines@[i as int]@);
        }
        let t = trim_line(lines[i].as_slice());
        let blank_or_comment = t.len() == 0 || t[0] == 35 || (t.len() >= 2 && t[0] == 47
            && t[1] == 47);
        proof {
            assert(blank_or_comment == is_blank_or_comment(lns[i as int]));
        }
        if !blank_or_comment {
            let valid = crate::range::parse_cidr(t.as_slice()).is_some();
            if valid {
                let ghost base = ranges.deep_view();
                ranges.push(t);
                proof {
                    assert(ranges.deep_view() =~~= base + seq![trim_spec(lns[i as int])]);
                    assert(ranges.deep_view() =~~= kept_upto(lns, i + 1));
                }
            } else {
                rejected.push(i);
                proof {
                    assert(rejected@ =~= rejected_upto(lns, i + 1));
                }
            }
        } else {
            proof {
                assert(ranges.deep_view() =~~= kept_upto(lns, i + 1));
            }
        }
        i += 1;
    }
    if ranges.len() == 0 {
        Err(RangeFileError::NoValidRanges)
    } else {
        Ok(RangeFile { ranges, rejected })
    }
}

} // verus!
