//! Indenting every line of a text.
use vstd::prelude::*;
use vstd::string::StrSliceExecFns;
use crate::text::chars_of;

verus! {

/// Index of the first occurrence of `c` in `s`, or -1.
pub open spec fn first_index_of(s: Seq<char>, c: char) -> int
    decreases s.len(),
{
    if s.len() == 0 {
        -1
    } else if s[0] == c {
        0
    } else {
        let r = first_index_of(s.drop_first(), c);
        if r < 0 {
            -1
        } else {
            r + 1
        }
    }
}

/// `l` without one trailing carriage return.
pub open spec fn strip_cr(l: Seq<char>) -> Seq<char> {
    if l.len() > 0 && l.last() == '\r' {
        l.drop_last()
    } else {
        l
    }
}

/// The lines of `s`: it is split at each `\n`, a `\r` right before a `\n`
/// is dropped, and a final `\n` does not start another line.
pub open spec fn lines(s: Seq<char>) -> Seq<Seq<char>>
    decreases s.len(),
{
    if s.len() == 0 {
        seq![]
    } else {
        let i = first_index_of(s, '\n');
        if i < 0 {
            seq![s]
        } else {
            proof {
                lemma_first_index_of(s, '\n');
            }
            seq![strip_cr(s.subrange(0, i))] + lines(s.subrange(i + 1, s.len() as int))
        }
    }
}

/// `n` spaces.
pub open spec fn spaces(n: nat) -> Seq<char> {
    Seq::new(n, |i: int| ' ')
}

/// Each line in turn, preceded by `count` spaces and followed by `\n`.
pub open spec fn fold_indent(ls: Seq<Seq<char>>, count: nat) -> Seq<char>
    decreases ls.len(),
{
    if ls.len() == 0 {
        seq![]
    } else {
        fold_indent(ls.drop_last(), count) + spaces(count) + ls.last() + seq!['\n']
    }
}

/// The lines of `s`, each indented by `count` spaces, with the `\n` after the
/// last line removed.
pub open spec fn indented(s: Seq<char>, count: nat) -> Seq<char> {
    let f = fold_indent(lines(s), count);
    if f.len() > 0 {
        f.drop_last()
    } else {
        f
    }
}

pub proof fn lemma_first_index_of(s: Seq<char>, c: char)
    ensures
        -1 <= first_index_of(s, c) < s.len(),
        first_index_of(s, c) >= 0 ==> s[first_index_of(s, c)] == c,
        first_index_of(s, c) < 0 ==> forall|j: int| 0 <= j < s.len() ==> s[j] != c,
        forall|j: int| 0 <= j < first_index_of(s, c) ==> s[j] != c,
    decreases s.len(),
{
    if s.len() > 0 && s[0] != c {
        lemma_first_index_of(s.drop_first(), c);
        assert forall|j: int| 0 < j < s.len() implies s[j] == s.drop_first()[j - 1] by {}
    }
}

proof fn lemma_first_index_of_at(s: Seq<char>, c: char, j: int)
    requires
        0 <= j < s.len(),
        s[j] == c,
        forall|k: int| 0 <= k < j ==> s[k] != c,
    ensures
        first_index_of(s, c) == j,
{
    lemma_first_index_of(s, c);
}

proof fn lemma_fold_indent_front(l: Seq<char>, rest: Seq<Seq<char>>, count: nat)
    ensures
        fold_indent(seq![l] + rest, count) == spaces(count) + l + seq!['\n'] + fold_indent(
            rest,
            count,
        ),
    decreases rest.len(),
{
    if rest.len() == 0 {
        assert((seq![l] + rest).drop_last() =~= seq![]);
        assert((seq![l] + rest).last() == l);
        assert(fold_indent(seq![], count) =~= seq![]);
        assert(fold_indent(seq![l] + rest, count) =~= spaces(count) + l + seq!['\n']);
    } else {
        lemma_fold_indent_front(l, rest.drop_last(), count);
        assert((seq![l] + rest).drop_last() =~= seq![l] + rest.drop_last());
        assert((seq![l] + rest).last() == rest.last());
        assert(fold_indent(seq![l] + rest, count) =~= spaces(count) + l + seq!['\n'] + fold_indent(
            rest,
            count,
        ));
    }
}

proof fn lemma_fold_lines_unindented(s: Seq<char>)
    requires
        s.len() > 0,
        s.last() != '\n',
        forall|i: int| 0 <= i < s.len() ==> s[i] != '\r',
    ensures
        fold_indent(lines(s), 0) == s + seq!['\n'],
    decreases s.len(),
{
    lemma_first_index_of(s, '\n');
    let i = first_index_of(s, '\n');
    assert(spaces(0) =~= seq![]);
    if i < 0 {
        assert(lines(s) =~= seq![s]);
        lemma_fold_indent_front(s, seq![], 0);
        assert(seq![s] + seq![] =~= seq![s]);
        assert(fold_indent(seq![], 0) =~= seq![]);
        assert(fold_indent(lines(s), 0) =~= s + seq!['\n']);
    } else {
        let head = s.subrange(0, i);
        let tail = s.subrange(i + 1, s.len() as int);
        assert(strip_cr(head) == head) by {
            if head.len() > 0 {
                assert(head.last() == s[i - 1]);
            }
        }
        assert(lines(s) == seq![head] + lines(tail));
        assert(tail.len() > 0);
        assert(tail.last() == s.last());
        lemma_fold_lines_unindented(tail);
        lemma_fold_indent_front(head, lines(tail), 0);
        assert(s =~= head + seq!['\n'] + tail);
        assert(fold_indent(lines(s), 0) =~= s + seq!['\n']);
    }
}

/// Indenting by zero spaces gives back a text that holds no carriage return
/// and does not end with a line feed.
pub proof fn lemma_indent_by_zero_keeps_text(s: Seq<char>)
    requires
        s.len() == 0 || s.last() != '\n',
        forall|i: int| 0 <= i < s.len() ==> s[i] != '\r',
    ensures
        indented(s, 0) == s,
{
    if s.len() == 0 {
        assert(lines(s) =~= seq![]);
        assert(fold_indent(seq![], 0) =~= seq![]);
    } else {
        lemma_fold_lines_unindented(s);
        assert((s + seq!['\n']).drop_last() =~= s);
    }
}

/// Indenting texts line by line.
pub trait Indent {
    /// Every line preceded by `count` spaces, lines separated by `\n`.
    fn indent_lines(&self, count: u8) -> String;
}

impl Indent for str {
    fn indent_lines(&self, count: u8) -> (r: String)
        ensures
            r@ == indented(self@, count as nat),
    {
        let v = chars_of(self);
        let n = v.len();
        let mut pad = String::new();
        let mut k: u8 = 0;
        while k < count
            invariant
                k <= count,
                pad@ == spaces(k as nat),
            decreases count - k,
        {
            pad.append(" ");
            k = k + 1;
            proof {
                reveal_strlit(" ");
            }
            assert(pad@ =~= spaces(k as nat));
        }
        let mut result = String::new();
        let ghost mut done: Seq<Seq<char>> = seq![];
        let mut start: usize = 0;
        let mut i: usize = 0;
        assert(v@.subrange(0, n as int) =~= v@);
        while i < n
            invariant
                v@ == self@,
                n == v.len(),
                start <= i <= n,
                pad@ == spaces(count as nat),
                lines(self@) == done + lines(v@.subrange(start as int, n as int)),
                result@ == fold_indent(done, count as nat),
                forall|j: int| start <= j < i ==> v@[j] != '\n',
            decreases n - i,
        {
            if v[i] == '\n' {
                let end = if i > start && v[i - 1] == '\r' {
                    i - 1
                } else {
                    i
                };
                let line = self.substring_char(start, end);
                proof {
                    let t = v@.subrange(start as int, n as int);
                    lemma_first_index_of_at(t, '\n', i - start);
                    assert(t.subrange(0, i - start) =~= v@.subrange(start as int, i as int));
                    assert(t.subrange(i - start + 1, t.len() as int) =~= v@.subrange(
                        i + 1,
                        n as int,
                    ));
                    assert(line@ =~= strip_cr(v@.subrange(start as int, i as int)));
                    let nd = done.push(line@);
                    assert(nd.drop_last() =~= done);
                    assert(lines(self@) =~= nd + lines(v@.subrange(i + 1, n as int)));
                }
                result.append(pad.as_str());
                result.append(line);
                result.append("\n");
                proof {
                    reveal_strlit("\n");
                    done = done.push(line@);
                }
                start = i + 1;
            }
            i = i + 1;
        }
        if start < n {
            let line = self.substring_char(start, n);
            proof {
                reveal_strlit("\n");
                let t = v@.subrange(start as int, n as int);
                lemma_first_index_of(t, '\n');
                assert(lines(t) =~= seq![t]);
                let nd = done.push(line@);
                assert(nd.drop_last() =~= done);
                assert(lines(self@) =~= nd);
            }
            result.append(pad.as_str());
            result.append(line);
            result.append("\n");
            proof {
                done = done.push(line@);
            }
        } else {
            assert(lines(self@) =~= done);
        }
        let len = result.as_str().unicode_len();
        if len > 0 {
            String::from_str(result.as_str().substring_char(0, len - 1))
        } else {
            result
        }
    }
}

} // verus!
