use vstd::prelude::*;

use crate::editor::split_on;
use crate::text::{chars_of, string_from_chars};

verus! {

/// Whether `c` is white space in the Unicode sense (its White_Space
/// property), as `char::is_whitespace` tells it.
pub open spec fn is_space(c: char) -> bool {
    ||| ('\u{9}' <= c && c <= '\u{d}')
    ||| c == ' '
    ||| c == '\u{85}'
    ||| c == '\u{a0}'
    ||| c == '\u{1680}'
    ||| ('\u{2000}' <= c && c <= '\u{200a}')
    ||| c == '\u{2028}'
    ||| c == '\u{2029}'
    ||| c == '\u{202f}'
    ||| c == '\u{205f}'
    ||| c == '\u{3000}'
}

/// Whether `c` is white space.
pub fn is_space_char(c: char) -> (r: bool)
    ensures
        r == is_space(c),
{
    ('\u{9}' <= c && c <= '\u{d}') || c == ' ' || c == '\u{85}' || c == '\u{a0}' || c == '\u{1680}'
        || ('\u{2000}' <= c && c <= '\u{200a}') || c == '\u{2028}' || c == '\u{2029}' || c == '\u{202f}'
        || c == '\u{205f}' || c == '\u{3000}'
}

/// `s` without its leading white space.
pub open spec fn trim_start(s: Seq<char>) -> Seq<char>
    decreases s.len(),
{
    if s.len() > 0 && is_space(s[0]) {
        trim_start(s.drop_first())
    } else {
        s
    }
}

/// `s` without its trailing white space.
pub open spec fn trim_end(s: Seq<char>) -> Seq<char>
    decreases s.len(),
{
    if s.len() > 0 && is_space(s.last()) {
        trim_end(s.drop_last())
    } else {
        s
    }
}

/// `s` without white space at either end.
pub open spec fn trim(s: Seq<char>) -> Seq<char> {
    trim_end(trim_start(s))
}

/// A line as it came before its line feed, without the carriage return
/// that may end it.
pub open spec fn strip_cr(p: Seq<char>) -> Seq<char> {
    if p.len() > 0 && p.last() == '\r' {
        p.drop_last()
    } else {
        p
    }
}

/// The lines of `s` as `str::lines` gives them: cut at line feeds, a
/// carriage return before a line feed dropped, and no empty line after a
/// final line feed.
pub open spec fn lines_of(s: Seq<char>) -> Seq<Seq<char>> {
    let pieces = split_on(s, '\n');
    let ended = pieces.drop_last().map_values(|p: Seq<char>| strip_cr(p));
    if pieces.last().len() == 0 {
        ended
    } else {
        ended.push(pieces.last())
    }
}

/// `parts` joined with line feeds.
pub open spec fn join_lines(parts: Seq<Seq<char>>) -> Seq<char>
    decreases parts.len(),
{
    if parts.len() == 0 {
        Seq::<char>::empty()
    } else if parts.len() == 1 {
        parts[0]
    } else {
        join_lines(parts.drop_last()) + seq!['\n'] + parts.last()
    }
}

/// The line that stands for an empty line inside a part.
pub open spec fn blank_marker() -> Seq<char> {
    seq!['_', '_', '_', '_']
}

/// The parts finished, and the lines of the part under way, after reading
/// `lines`: a blank line ends a part, the marker line adds an empty line,
/// any other line is added trimmed.
pub open spec fn tutorial_fold(lines: Seq<Seq<char>>) -> (Seq<Seq<char>>, Seq<Seq<char>>)
    decreases lines.len(),
{
    if lines.len() == 0 {
        (Seq::<Seq<char>>::empty(), Seq::<Seq<char>>::empty())
    } else {
        let (chunks, current) = tutorial_fold(lines.drop_last());
        let line = lines.last();
        if trim(line).len() == 0 {
            if current.len() > 0 {
                (chunks.push(join_lines(current)), Seq::<Seq<char>>::empty())
            } else {
                (chunks, current)
            }
        } else if line == blank_marker() {
            (chunks, current.push(Seq::<char>::empty()))
        } else {
            (chunks, current.push(trim(line)))
        }
    }
}

/// The parts a tutorial text is shown in: runs of lines between blank lines.
pub open spec fn spec_chunk_tutorial_text(input: Seq<char>) -> Seq<Seq<char>> {
    let (chunks, current) = tutorial_fold(lines_of(input));
    if current.len() > 0 {
        chunks.push(join_lines(current))
    } else {
        chunks
    }
}

proof fn lemma_trim_start_skip(s: Seq<char>, a: int)
    requires
        0 <= a <= s.len(),
        forall|k: int| 0 <= k < a ==> is_space(#[trigger] s[k]),
        a == s.len() || !is_space(s[a]),
    ensures
        trim_start(s) == s.skip(a),
    decreases a,
{
    if a == 0 {
        assert(s.skip(0) =~= s);
    } else {
        let t = s.drop_first();
        assert forall|k: int| 0 <= k < a - 1 implies is_space(#[trigger] t[k]) by {
            assert(t[k] == s[k + 1]);
        }
        if a - 1 < t.len() {
            assert(t[a - 1] == s[a]);
        }
        lemma_trim_start_skip(t, a - 1);
        assert(t.skip(a - 1) =~= s.skip(a));
    }
}

proof fn lemma_trim_end_take(s: Seq<char>, b: int)
    requires
        0 <= b <= s.len(),
        forall|k: int| b <= k < s.len() ==> is_space(#[trigger] s[k]),
        b == 0 || !is_space(s[b - 1]),
    ensures
        trim_end(s) == s.take(b),
    decreases s.len() - b,
{
    if b == s.len() {
        assert(s.take(b) =~= s);
    } else {
        let t = s.drop_last();
        assert forall|k: int| b <= k < t.len() implies is_space(#[trigger] t[k]) by {
            assert(t[k] == s[k]);
        }
        if b > 0 {
            assert(t[b - 1] == s[b - 1]);
        }
        assert(is_space(s[s.len() - 1]));
        lemma_trim_end_take(t, b);
        assert(t.take(b) =~= s.take(b));
    }
}

/// `s` without white space at either end.
pub fn trim_chars(s: &Vec<char>) -> (r: Vec<char>)
    ensures
        r@ == trim(s@),
{
    let n = s.len();
    let mut a: usize = 0;
    while a < n && is_space_char(s[a])
        invariant
            n == s@.len(),
            a <= n,
            forall|k: int| 0 <= k < a ==> is_space(#[trigger] s@[k]),
        decreases n - a,
    {
        a += 1;
    }
    proof {
        lemma_trim_start_skip(s@, a as int);
    }
    let ghost t = s@.skip(a as int);
    let mut b: usize = n;
    while b > a && is_space_char(s[b - 1])
        invariant
            n == s@.len(),
            a <= b <= n,
            forall|k: int| b <= k < n ==> is_space(#[trigger] s@[k]),
        decreases b - a,
    {
        b -= 1;
    }
    proof {
        assert forall|k: int| b - a <= k < t.len() implies is_space(#[trigger] t[k]) by {
            assert(t[k] == s@[k + a]);
        }
        if b > a {
            assert(t[b - a - 1] == s@[b - 1]);
        }
        lemma_trim_end_take(t, (b - a) as int);
    }
    let mut out: Vec<char> = Vec::new();
    let mut i: usize = a;
    while i < b
        invariant
            a <= i <= b <= n,
            n == s@.len(),
            out@ == s@.subrange(a as int, i as int),
        decreases b - i,
    {
        out.push(s[i]);
        proof {
            assert(s@.subrange(a as int, i + 1) =~= s@.subrange(a as int, i as int).push(s@[i as int]));
        }
        i += 1;
    }
    proof {
        assert(out@ =~= t.take((b - a) as int));
    }
    out
}

fn strip_cr_chars(p: Vec<char>) -> (r: Vec<char>)
    ensures
        r@ == strip_cr(p@),
{
    let ghost orig = p@;
    let mut q = p;
    if q.len() > 0 && q[q.len() - 1] == '\r' {
        q.pop();
        proof {
            assert(q@ =~= orig.drop_last());
        }
    }
    q
}

/// The lines of `input`, as `str::lines` gives them.
pub fn lines_of_chars(input: &Vec<char>) -> (r: Vec<Vec<char>>)
    ensures
        r@.len() == lines_of(input@).len(),
        forall|i: int| 0 <= i < r@.len() ==> (#[trigger] r@[i])@ == lines_of(input@)[i],
{
    let n = input.len();
    let mut ended: Vec<Vec<char>> = Vec::new();
    let mut current: Vec<char> = Vec::new();
    let mut i: usize = 0;
    proof {
        assert(input@.take(0) =~= Seq::<char>::empty());
    }
    while i < n
        invariant
            n == input@.len(),
            i <= n,
            split_on(input@.take(i as int), '\n').len() == ended@.len() + 1,
            forall|k: int|
                0 <= k < ended@.len() ==> (#[trigger] ended@[k])@ == strip_cr(
                    split_on(input@.take(i as int), '\n')[k],
                ),
            split_on(input@.take(i as int), '\n').last() == current@,
        decreases n - i,
    {
        let c = input[i];
        let ghost prev = split_on(input@.take(i as int), '\n');
        proof {
            assert(input@.take(i + 1).drop_last() =~= input@.take(i as int));
            assert(input@.take(i + 1).last() == c);
        }
        if c == '\n' {
            let line = strip_cr_chars(current);
            ended.push(line);
            current = Vec::new();
            proof {
                let next = split_on(input@.take(i + 1), '\n');
                assert(next == prev.push(Seq::<char>::empty()));
                assert forall|k: int| 0 <= k < ended@.len() implies (#[trigger] ended@[k])@ == strip_cr(next[k]) by {
                    if k < ended@.len() - 1 {
                        assert(next[k] == prev[k]);
                    }
                }
            }
        } else {
            current.push(c);
            proof {
                let next = split_on(input@.take(i + 1), '\n');
                assert(next == prev.update(prev.len() - 1, prev.last().push(c)));
                assert forall|k: int| 0 <= k < ended@.len() implies (#[trigger] ended@[k])@ == strip_cr(next[k]) by {
                    assert(next[k] == prev[k]);
                }
            }
        }
        i += 1;
    }
    proof {
        assert(input@.take(n as int) =~= input@);
    }
    let ghost pieces = split_on(input@, '\n');
    let ghost expected = lines_of(input@);
    if current.len() > 0 {
        ended.push(current);
        proof {
            assert forall|i: int| 0 <= i < ended@.len() implies (#[trigger] ended@[i])@ == expected[i] by {
                if i < ended@.len() - 1 {
                    assert(expected[i] == pieces.drop_last().map_values(|p: Seq<char>| strip_cr(p))[i]);
                }
            }
        }
    } else {
        proof {
            assert forall|i: int| 0 <= i < ended@.len() implies (#[trigger] ended@[i])@ == expected[i] by {
                assert(expected[i] == pieces.drop_last().map_values(|p: Seq<char>| strip_cr(p))[i]);
            }
        }
    }
    ended
}

/// `parts` joined with line feeds.
pub fn join_line_chars(parts: &Vec<Vec<char>>) -> (r: Vec<char>)
    ensures
        r@ == join_lines(Seq::new(parts@.len(), |k: int| parts@[k]@)),
{
    let ghost views = Seq::new(parts@.len(), |k: int| parts@[k]@);
    let mut out: Vec<char> = Vec::new();
    let mut i: usize = 0;
    while i < parts.len()
        invariant
            i <= parts@.len(),
            views == Seq::new(parts@.len(), |k: int| parts@[k]@),
            out@ == join_lines(views.take(i as int)),
        decreases parts@.len() - i,
    {
        let ghost before = out@;
        if i > 0 {
            out.push('\n');
        }
        let part = &parts[i];
        let mut j: usize = 0;
        let ghost mid = out@;
        while j < part.len()
            invariant
                j <= part@.len(),
                out@ == mid + part@.take(j as int),
            decreases part@.len() - j,
        {
            out.push(part[j]);
            proof {
                assert(part@.take(j + 1) =~= part@.take(j as int).push(part@[j as int]));
                assert(mid + part@.take(j + 1) =~= (mid + part@.take(j as int)).push(part@[j as int]));
            }
            j += 1;
        }
        proof {
            assert(part@.take(j as int) =~= part@);
            let t = views.take(i + 1);
            assert(t.drop_last() =~= views.take(i as int));
            assert(t.last() == part@);
            if i == 0 {
                assert(t.len() == 1);
                assert(out@ =~= part@);
            } else {
                assert(out@ =~= before + seq!['\n'] + part@);
            }
        }
        i += 1;
    }
    proof {
        assert(views.take(parts@.len() as int) =~= views);
    }
    out
}

fn is_blank_marker(line: &Vec<char>) -> (r: bool)
    ensures
        r == (line@ == blank_marker()),
{
    if line.len() != 4 {
        return false;
    }
    let r = line[0] == '_' && line[1] == '_' && line[2] == '_' && line[3] == '_';
    proof {
        if r {
            assert(line@ =~= blank_marker());
        }
    }
    r
}

/// The parts a tutorial text is shown in, one after another: runs of lines
/// between blank lines, each line trimmed, a line of four underscores
/// standing for an empty line.
pub fn chunk_tutorial_text(input: &str) -> (r: Vec<String>)
    ensures
        r@.len() == spec_chunk_tutorial_text(input@).len(),
        forall|i: int| 0 <= i < r@.len() ==> (#[trigger] r@[i])@ == spec_chunk_tutorial_text(input@)[i],
{
    let chars = chars_of(input);
    let lines = lines_of_chars(&chars);
    let ghost ls = lines_of(input@);
    let mut chunks: Vec<String> = Vec::new();
    let mut current: Vec<Vec<char>> = Vec::new();
    let mut i: usize = 0;
    while i < lines.len()
        invariant
            i <= lines@.len(),
            lines@.len() == ls.len(),
            ls == lines_of(input@),
            forall|k: int| 0 <= k < lines@.len() ==> (#[trigger] lines@[k])@ == ls[k],
            chunks@.len() == tutorial_fold(ls.take(i as int)).0.len(),
            forall|k: int| 0 <= k < chunks@.len() ==> (#[trigger] chunks@[k])@ == tutorial_fold(ls.take(i as int)).0[k],
            Seq::new(current@.len(), |k: int| current@[k]@) == tutorial_fold(ls.take(i as int)).1,
        decreases lines@.len() - i,
    {
        let line = &lines[i];
        let ghost prev = tutorial_fold(ls.take(i as int));
        proof {
            assert(ls.take(i + 1).drop_last() =~= ls.take(i as int));
            assert(ls.take(i + 1).last() == line@);
        }
        let trimmed = trim_chars(line);
        if trimmed.len() == 0 {
            if current.len() > 0 {
                let joined = join_line_chars(&current);
                let text = string_from_chars(&joined);
                chunks.push(text);
                current = Vec::new();
                proof {
                    assert(Seq::new(current@.len(), |k: int| current@[k]@) =~= Seq::<Seq<char>>::empty());
                    assert forall|k: int| 0 <= k < chunks@.len() implies (#[trigger] chunks@[k])@
                        == tutorial_fold(ls.take(i + 1)).0[k] by {
                        if k < chunks@.len() - 1 {
                            assert(tutorial_fold(ls.take(i + 1)).0[k] == prev.0[k]);
                        }
                    }
                }
            }
        } else if is_blank_marker(line) {
            let ghost before = Seq::new(current@.len(), |k: int| current@[k]@);
            current.push(Vec::new());
            proof {
                assert(Seq::new(current@.len(), |k: int| current@[k]@) =~= before.push(Seq::<char>::empty()));
            }
        } else {
            let ghost before = Seq::new(current@.len(), |k: int| current@[k]@);
            current.push(trimmed);
            proof {
                assert(Seq::new(current@.len(), |k: int| current@[k]@) =~= before.push(trim(line@)));
            }
        }
        i += 1;
    }
    proof {
        assert(ls.take(lines@.len() as int) =~= ls);
    }
    let ghost done = tutorial_fold(ls);
    if current.len() > 0 {
        let joined = join_line_chars(&current);
        let text = string_from_chars(&joined);
        chunks.push(text);
        proof {
            assert forall|k: int| 0 <= k < chunks@.len() implies (#[trigger] chunks@[k])@
                == spec_chunk_tutorial_text(input@)[k] by {
                if k < chunks@.len() - 1 {
                    assert(spec_chunk_tutorial_text(input@)[k] == done.0[k]);
                }
            }
        }
    }
    chunks
}

} // verus!
