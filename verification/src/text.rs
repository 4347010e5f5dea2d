//! Character-sequence helpers: prefix tests, whitespace tokens, and
//! splitting command output into lines.

use vstd::prelude::*;

verus! {

/// Whitespace as the tokenizer sees it: the ASCII blanks a key event or a
/// captured output stream can contain.
pub open spec fn is_space(c: char) -> bool {
    c == ' ' || c == '\t' || c == '\n' || c == '\r'
}

pub fn is_space_char(c: char) -> (r: bool)
    ensures
        r == is_space(c),
{
    c == ' ' || c == '\t' || c == '\n' || c == '\r'
}

/// `p` is an initial segment of `s`.
pub open spec fn is_prefix(p: Seq<char>, s: Seq<char>) -> bool {
    p.len() <= s.len() && s.subrange(0, p.len() as int) == p
}

pub fn starts_with(s: &Vec<char>, p: &Vec<char>) -> (r: bool)
    ensures
        r == is_prefix(p@, s@),
{
    if p.len() > s.len() {
        return false;
    }
    let mut i: usize = 0;
    while i < p.len()
        invariant
            0 <= i <= p@.len() <= s@.len(),
            forall|j: int| 0 <= j < i ==> s@[j] == p@[j],
        decreases p@.len() - i,
    {
        if s[i] != p[i] {
            assert(s@.subrange(0, p@.len() as int)[i as int] == s@[i as int]);
            return false;
        }
        i += 1;
    }
    assert(s@.subrange(0, p@.len() as int) =~= p@);
    true
}

/// `s` with every trailing whitespace character removed.
pub open spec fn trim_trailing(s: Seq<char>) -> Seq<char>
    decreases s.len(),
{
    if s.len() > 0 && is_space(s.last()) {
        trim_trailing(s.drop_last())
    } else {
        s
    }
}

/// The maximal run of non-whitespace characters at the end of `s`.
pub open spec fn tail_run(s: Seq<char>) -> Seq<char>
    decreases s.len(),
{
    if s.len() > 0 && !is_space(s.last()) {
        tail_run(s.drop_last()).push(s.last())
    } else {
        Seq::empty()
    }
}

/// The last whitespace-delimited token of `s`; empty when `s` holds none.
pub open spec fn last_token(s: Seq<char>) -> Seq<char> {
    tail_run(trim_trailing(s))
}

pub fn last_token_of(s: &Vec<char>) -> (t: Vec<char>)
    ensures
        t@ == last_token(s@),
{
    let mut e: usize = s.len();
    proof {
        assert(s@.subrange(0, s@.len() as int) =~= s@);
    }
    while e > 0 && is_space_char(s[e - 1])
        invariant
            0 <= e <= s@.len(),
            trim_trailing(s@) == trim_trailing(s@.subrange(0, e as int)),
        decreases e,
    {
        proof {
            let cur = s@.subrange(0, e as int);
            assert(cur.drop_last() =~= s@.subrange(0, e - 1));
        }
        e -= 1;
    }
    proof {
        let cur = s@.subrange(0, e as int);
        assert(trim_trailing(cur) == cur);
        assert(trim_trailing(s@) == s@.subrange(0, e as int));
    }
    let mut b: usize = e;
    while b > 0 && !is_space_char(s[b - 1])
        invariant
            0 <= b <= e <= s@.len(),
            tail_run(s@.subrange(0, e as int)) == tail_run(s@.subrange(0, b as int)) + s@.subrange(
                b as int,
                e as int,
            ),
        decreases b,
    {
        proof {
            let cur = s@.subrange(0, b as int);
            assert(cur.drop_last() =~= s@.subrange(0, b - 1));
            assert(tail_run(cur) == tail_run(s@.subrange(0, b - 1)).push(s@[b - 1]));
            assert(tail_run(s@.subrange(0, b - 1)).push(s@[b - 1]) + s@.subrange(b as int, e as int)
                =~= tail_run(s@.subrange(0, b - 1)) + s@.subrange(b - 1, e as int));
        }
        b -= 1;
    }
    proof {
        assert(tail_run(s@.subrange(0, b as int)) =~= Seq::<char>::empty());
        assert(Seq::<char>::empty() + s@.subrange(b as int, e as int) =~= s@.subrange(
            b as int,
            e as int,
        ));
    }
    let mut t: Vec<char> = Vec::new();
    let mut i: usize = b;
    while i < e
        invariant
            b <= i <= e <= s@.len(),
            t@ == s@.subrange(b as int, i as int),
        decreases e - i,
    {
        t.push(s[i]);
        proof {
            assert(s@.subrange(b as int, i + 1) =~= s@.subrange(b as int, i as int).push(
                s@[i as int],
            ));
        }
        i += 1;
    }
    t
}

/// The whitespace-delimited tokens of `s`, with `cur` the token being read
/// when the scan reached `s`.
pub open spec fn tokens_acc(s: Seq<char>, cur: Seq<char>) -> Seq<Seq<char>>
    decreases s.len(),
{
    if s.len() == 0 {
        if cur.len() > 0 {
            seq![cur]
        } else {
            Seq::empty()
        }
    } else if is_space(s[0]) {
        if cur.len() > 0 {
            seq![cur] + tokens_acc(s.subrange(1, s.len() as int), Seq::empty())
        } else {
            tokens_acc(s.subrange(1, s.len() as int), Seq::empty())
        }
    } else {
        tokens_acc(s.subrange(1, s.len() as int), cur.push(s[0]))
    }
}

/// The whitespace-delimited tokens of `s`, in order.
pub open spec fn tokens_of(s: Seq<char>) -> Seq<Seq<char>> {
    tokens_acc(s, Seq::empty())
}

pub fn tokenize(s: &Vec<char>) -> (r: Vec<Vec<char>>)
    ensures
        r.deep_view() == tokens_of(s@),
{
    let mut out: Vec<Vec<char>> = Vec::new();
    let mut cur: Vec<char> = Vec::new();
    let mut i: usize = 0;
    proof {
        assert(s@.subrange(0, s@.len() as int) =~= s@);
        assert(out.deep_view() =~~= Seq::<Seq<char>>::empty());
        assert(Seq::<Seq<char>>::empty() + tokens_of(s@) =~~= tokens_of(s@));
    }
    while i < s.len()
        invariant
            0 <= i <= s@.len(),
            out.deep_view() + tokens_acc(s@.subrange(i as int, s@.len() as int), cur@) == tokens_of(
                s@,
            ),
        decreases s@.len() - i,
    {
        let ghost rest = s@.subrange(i as int, s@.len() as int);
        proof {
            assert(rest.subrange(1, rest.len() as int) =~= s@.subrange(i + 1, s@.len() as int));
            assert(rest[0] == s@[i as int]);
        }
        if is_space_char(s[i]) {
            if cur.len() > 0 {
                let ghost old_out = out.deep_view();
                let ghost old_cur = cur@;
                let done = cur;
                cur = Vec::new();
                out.push(done);
                proof {
                    assert(out.deep_view() =~~= old_out.push(old_cur));
                    assert(old_out + (seq![old_cur] + tokens_acc(
                        s@.subrange(i + 1, s@.len() as int),
                        Seq::empty(),
                    )) =~~= old_out.push(old_cur) + tokens_acc(
                        s@.subrange(i + 1, s@.len() as int),
                        Seq::empty(),
                    ));
                }
            } else {
                proof {
                    assert(cur@ =~= Seq::<char>::empty());
                }
            }
        } else {
            cur.push(s[i]);
        }
        i += 1;
    }
    proof {
        assert(s@.subrange(s@.len() as int, s@.len() as int) =~= Seq::<char>::empty());
    }
    if cur.len() > 0 {
        let ghost old_out = out.deep_view();
        let ghost old_cur = cur@;
        out.push(cur);
        proof {
            assert(out.deep_view() =~~= old_out.push(old_cur));
            assert(old_out + seq![old_cur] =~~= old_out.push(old_cur));
        }
    } else {
        proof {
            assert(out.deep_view() + Seq::<Seq<char>>::empty() =~~= out.deep_view());
        }
    }
    out
}

/// The lines of `s` split at newline characters, with `cur` the line being
/// read when the scan reached `s`; an empty `s` still yields one line.
pub open spec fn lines_acc(s: Seq<char>, cur: Seq<char>) -> Seq<Seq<char>>
    decreases s.len(),
{
    if s.len() == 0 {
        seq![cur]
    } else if s[0] == '\n' {
        seq![cur] + lines_acc(s.subrange(1, s.len() as int), Seq::empty())
    } else {
        lines_acc(s.subrange(1, s.len() as int), cur.push(s[0]))
    }
}

/// The lines of `s`: what splitting at every newline yields, never empty.
pub open spec fn lines_of(s: Seq<char>) -> Seq<Seq<char>> {
    lines_acc(s, Seq::empty())
}

/// The printable lines of captured output: split at newlines, with a
/// trailing newline ending the last line rather than opening an empty one;
/// empty output still counts as one empty line.
pub open spec fn output_lines(s: Seq<char>) -> Seq<Seq<char>> {
    if s.len() > 0 && s.last() == '\n' {
        lines_of(s).drop_last()
    } else {
        lines_of(s)
    }
}

pub proof fn lemma_lines_acc_len(s: Seq<char>, cur: Seq<char>)
    ensures
        1 <= lines_acc(s, cur).len() <= s.len() + 1,
    decreases s.len(),
{
    if s.len() > 0 {
        if s[0] == '\n' {
            lemma_lines_acc_len(s.subrange(1, s.len() as int), Seq::empty());
        } else {
            lemma_lines_acc_len(s.subrange(1, s.len() as int), cur.push(s[0]));
        }
    }
}

pub fn split_lines(s: &Vec<char>) -> (r: Vec<Vec<char>>)
    ensures
        r.deep_view() == lines_of(s@),
        1 <= r@.len() <= s@.len() + 1,
{
    let mut out: Vec<Vec<char>> = Vec::new();
    let mut cur: Vec<char> = Vec::new();
    let mut i: usize = 0;
    proof {
        assert(s@.subrange(0, s@.len() as int) =~= s@);
        assert(out.deep_view() =~~= Seq::<Seq<char>>::empty());
        assert(Seq::<Seq<char>>::empty() + lines_of(s@) =~~= lines_of(s@));
    }
    while i < s.len()
        invariant
            0 <= i <= s@.len(),
            out.deep_view() + lines_acc(s@.subrange(i as int, s@.len() as int), cur@) == lines_of(
                s@,
            ),
            out@.len() <= i,
        decreases s@.len() - i,
    {
        let ghost rest = s@.subrange(i as int, s@.len() as int);
        proof {
            assert(rest.subrange(1, rest.len() as int) =~= s@.subrange(i + 1, s@.len() as int));
            assert(rest[0] == s@[i as int]);
        }
        if s[i] == '\n' {
            let ghost old_out = out.deep_view();
            let ghost old_cur = cur@;
            let done = cur;
            cur = Vec::new();
            out.push(done);
            proof {
                assert(out.deep_view() =~~= old_out.push(old_cur));
                assert(old_out + (seq![old_cur] + lines_acc(
                    s@.subrange(i + 1, s@.len() as int),
                    Seq::empty(),
                )) =~~= old_out.push(old_cur) + lines_acc(
                    s@.subrange(i + 1, s@.len() as int),
                    Seq::empty(),
                ));
            }
        } else {
            cur.push(s[i]);
        }
        i += 1;
    }
    proof {
        assert(s@.subrange(s@.len() as int, s@.len() as int) =~= Seq::<char>::empty());
    }
    let ghost old_out = out.deep_view();
    let ghost old_cur = cur@;
    out.push(cur);
    proof {
        assert(out.deep_view() =~~= old_out.push(old_cur));
        assert(old_out + seq![old_cur] =~~= old_out.push(old_cur));
        lemma_lines_acc_len(s@, Seq::empty());
    }
    out
}

/// A copy of `s` from position `k` on.
pub fn suffix_from(s: &Vec<char>, k: usize) -> (t: Vec<char>)
    requires
        k <= s@.len(),
    ensures
        t@ == s@.subrange(k as int, s@.len() as int),
{
    let mut t: Vec<char> = Vec::new();
    let mut i: usize = k;
    while i < s.len()
        invariant
            k <= i <= s@.len(),
            t@ == s@.subrange(k as int, i as int),
        decreases s@.len() - i,
    {
        t.push(s[i]);
        proof {
            assert(s@.subrange(k as int, i + 1) =~= s@.subrange(k as int, i as int).push(
                s@[i as int],
            ));
        }
        i += 1;
    }
    t
}

} // verus!
