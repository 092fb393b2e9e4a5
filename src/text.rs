//! Character-level text helpers: splitting a string into lines and joining
//! pieces with a separator, each with a mathematical model over `Seq<char>`.
use vstd::prelude::*;

verus! {

/// The text of each string, in order.
pub open spec fn texts(v: Seq<String>) -> Seq<Seq<char>> {
    v.map_values(|s: String| s@)
}

/// A line with one trailing carriage return removed, if it has one.
pub open spec fn strip_cr(l: Seq<char>) -> Seq<char> {
    if l.len() > 0 && l.last() == '\r' {
        l.drop_last()
    } else {
        l
    }
}

/// Scans `s` from the left: the lines already ended by a newline (with a
/// carriage return before that newline removed), and the unfinished last piece.
pub open spec fn scan(s: Seq<char>) -> (Seq<Seq<char>>, Seq<char>)
    decreases s.len(),
{
    if s.len() == 0 {
        (seq![], seq![])
    } else {
        let (done, cur) = scan(s.drop_last());
        if s.last() == '\n' {
            (done.push(strip_cr(cur)), seq![])
        } else {
            (done, cur.push(s.last()))
        }
    }
}

/// The lines of `s`: pieces ended by `\n` or `\r\n`, plus a last unterminated
/// piece when it is not empty. An empty string has no lines.
pub open spec fn lines_of(s: Seq<char>) -> Seq<Seq<char>> {
    let (done, cur) = scan(s);
    if cur.len() == 0 {
        done
    } else {
        done.push(cur)
    }
}

/// `parts` placed one after another with `sep` between consecutive parts.
pub open spec fn join(parts: Seq<Seq<char>>, sep: Seq<char>) -> Seq<char>
    decreases parts.len(),
{
    if parts.len() == 0 {
        seq![]
    } else if parts.len() == 1 {
        parts[0]
    } else {
        join(parts.drop_last(), sep) + sep + parts.last()
    }
}

/// `n` space characters.
pub open spec fn spaces(n: nat) -> Seq<char> {
    Seq::new(n, |i: int| ' ')
}

/// Whether `spans` marks out in `s` exactly the lines of `s`, as half-open
/// ranges of character positions.
pub open spec fn spans_of_lines(s: Seq<char>, spans: Seq<(usize, usize)>) -> bool {
    &&& spans.len() == lines_of(s).len()
    &&& forall|k: int|
        0 <= k < spans.len() ==> {
            &&& (#[trigger] spans[k]).0 <= spans[k].1 <= s.len()
            &&& s.subrange(spans[k].0 as int, spans[k].1 as int) == lines_of(s)[k]
        }
}

/// Joining one more part adds the separator and the part at the end.
pub proof fn lemma_join_push(parts: Seq<Seq<char>>, sep: Seq<char>, p: Seq<char>)
    ensures
        join(parts.push(p), sep) == if parts.len() == 0 {
            p
        } else {
            join(parts, sep) + sep + p
        },
{
    assert(parts.push(p).drop_last() =~= parts);
}

/// Joining the first `j + 1` parts extends the join of the first `j`.
pub proof fn lemma_join_take(parts: Seq<Seq<char>>, sep: Seq<char>, j: int)
    requires
        0 <= j < parts.len(),
    ensures
        join(parts.take(j + 1), sep) == if j == 0 {
            parts[0]
        } else {
            join(parts.take(j), sep) + sep + parts[j]
        },
{
    assert(parts.take(j + 1) =~= parts.take(j).push(parts[j]));
    lemma_join_push(parts.take(j), sep, parts[j]);
}

/// Whether `s` holds no carriage return.
pub open spec fn no_cr(s: Seq<char>) -> bool {
    forall|i: int| 0 <= i < s.len() ==> s[i] != '\r'
}

/// Without carriage returns, the finished lines and the unfinished piece,
/// joined by newlines, give back the scanned text.
pub proof fn lemma_scan_rejoins(s: Seq<char>)
    requires
        no_cr(s),
    ensures
        join(scan(s).0.push(scan(s).1), seq!['\n']) == s,
        scan(s).1.len() > 0 ==> scan(s).1.last() == s.last(),
    decreases s.len(),
{
    if s.len() > 0 {
        let prev = s.drop_last();
        assert(no_cr(prev));
        lemma_scan_rejoins(prev);
        let (done, cur) = scan(prev);
        lemma_join_push(done, seq!['\n'], cur);
        if s.last() == '\n' {
            assert(strip_cr(cur) == cur);
            lemma_join_push(done.push(cur), seq!['\n'], seq![]);
            assert(prev + seq!['\n'] + seq![] =~= s);
        } else {
            lemma_join_push(done, seq!['\n'], cur.push(s.last()));
            if done.len() == 0 {
                assert(cur.push(s.last()) =~= s);
            } else {
                assert(join(done, seq!['\n']) + seq!['\n'] + cur.push(s.last()) =~= prev.push(
                    s.last(),
                ));
                assert(prev.push(s.last()) =~= s);
            }
        }
    }
}

/// A text without carriage returns and without a newline at its end is its
/// lines joined by newlines.
pub proof fn lemma_lines_rejoin(s: Seq<char>)
    requires
        no_cr(s),
        !(s.len() > 0 && s.last() == '\n'),
    ensures
        join(lines_of(s), seq!['\n']) == s,
{
    lemma_scan_rejoins(s);
    let (done, cur) = scan(s);
    if cur.len() == 0 {
        lemma_join_push(done, seq!['\n'], cur);
        if done.len() > 0 {
            let j = join(done, seq!['\n']) + seq!['\n'] + cur;
            assert(j.last() == '\n');
        }
    }
}

/// The characters of `s`, in order.
pub fn chars_of(s: &str) -> (r: Vec<char>)
    ensures
        r@ == s@,
{
    let mut r: Vec<char> = Vec::new();
    for c in it: s.chars()
        invariant
            it.seq() == s@,
            r@ == it.seq().take(it.index() as int),
    {
        r.push(c);
    }
    r
}

/// The lines of `s`, as ranges of character positions; see `lines_of`.
pub fn line_spans(s: &str) -> (spans: Vec<(usize, usize)>)
    ensures
        spans_of_lines(s@, spans@),
{
    let cs = chars_of(s);
    let n = cs.len();
    let mut spans: Vec<(usize, usize)> = Vec::new();
    let mut start: usize = 0;
    let mut i: usize = 0;
    while i < n
        invariant
            cs@ == s@,
            n == cs.len(),
            start <= i <= n,
            scan(s@.take(i as int)).0.len() == spans.len(),
            scan(s@.take(i as int)).1 == s@.subrange(start as int, i as int),
            forall|k: int|
                0 <= k < spans.len() ==> {
                    &&& (#[trigger] spans[k]).0 <= spans[k].1 <= i
                    &&& s@.subrange(spans[k].0 as int, spans[k].1 as int) == scan(
                        s@.take(i as int),
                    ).0[k]
                },
        decreases n - i,
    {
        let ghost prev = scan(s@.take(i as int));
        assert(s@.take(i + 1).drop_last() =~= s@.take(i as int));
        if cs[i] == '\n' {
            let end = if i > start && cs[i - 1] == '\r' {
                i - 1
            } else {
                i
            };
            proof {
                let cur = s@.subrange(start as int, i as int);
                if i > start && cs[i - 1] == '\r' {
                    assert(cur.drop_last() =~= s@.subrange(start as int, end as int));
                } else {
                    assert(cur =~= s@.subrange(start as int, end as int));
                }
            }
            spans.push((start, end));
            start = i + 1;
        } else {
            assert(prev.1.push(s@[i as int]) =~= s@.subrange(start as int, i + 1));
        }
        i = i + 1;
    }
    assert(s@.take(n as int) =~= s@);
    let ghost done = scan(s@).0;
    if start < n {
        spans.push((start, n));
        assert(lines_of(s@) =~= done.push(s@.subrange(start as int, n as int)));
    }
    spans
}

} // verus!
