//! Splitting a raw command line into whitespace-delimited tokens.

use vstd::prelude::*;
use vstd::string::StrSliceExecFns;
use vstd::string::StringExecFns;

verus! {

/// Whether a character separates tokens on a command line.
pub open spec fn is_space(c: char) -> bool {
    c == ' ' || c == '\t' || c == '\n' || c == '\r'
}

/// Executable test for [`is_space`].
pub fn char_is_space(c: char) -> (r: bool)
    ensures
        r == is_space(c),
{
    c == ' ' || c == '\t' || c == '\n' || c == '\r'
}

/// The token a partially read word contributes: none if no word is open.
pub open spec fn pending(cur: Seq<char>) -> Seq<Seq<char>> {
    if cur.len() == 0 {
        Seq::empty()
    } else {
        seq![cur]
    }
}

/// Splits `s` on runs of whitespace, with `cur` the word read so far.
pub open spec fn split_ws_from(s: Seq<char>, cur: Seq<char>) -> Seq<Seq<char>>
    decreases s.len(),
{
    if s.len() == 0 {
        pending(cur)
    } else if is_space(s[0]) {
        pending(cur) + split_ws_from(s.drop_first(), Seq::empty())
    } else {
        split_ws_from(s.drop_first(), cur.push(s[0]))
    }
}

/// The whitespace-split of a line: its maximal runs of non-space
/// characters, in order. No token is empty.
pub open spec fn split_ws(s: Seq<char>) -> Seq<Seq<char>> {
    split_ws_from(s, Seq::empty())
}

/// Splits the line on runs of whitespace into its non-empty tokens,
/// preserving their left-to-right order.
pub fn tokenize(line: &str) -> (r: Vec<String>)
    ensures
        r.deep_view() == split_ws(line@),
{
    let n = line.unicode_len();
    let mut out: Vec<String> = Vec::new();
    let mut start: usize = 0;
    let mut i: usize = 0;
    proof {
        assert(out.deep_view() =~= Seq::<Seq<char>>::empty());
        assert(line@.skip(0) =~= line@);
        assert(line@.subrange(0, 0) =~= Seq::<char>::empty());
        assert(Seq::<Seq<char>>::empty() + split_ws(line@) =~= split_ws(line@));
    }
    while i < n
        invariant
            n == line@.len(),
            start <= i <= n,
            forall|k: int| start <= k < i ==> !is_space(line@[k]),
            out.deep_view() + split_ws_from(
                line@.skip(i as int),
                line@.subrange(start as int, i as int),
            ) == split_ws(line@),
        decreases n - i,
    {
        let ghost cur = line@.subrange(start as int, i as int);
        let ghost rest = line@.skip(i as int);
        proof {
            assert(rest[0] == line@[i as int]);
            assert(rest.drop_first() =~= line@.skip(i as int + 1));
        }
        let c = line.get_char(i);
        if char_is_space(c) {
            proof {
                assert(split_ws_from(rest, cur) == pending(cur) + split_ws_from(
                    rest.drop_first(),
                    Seq::empty(),
                ));
            }
            if start < i {
                let ghost prev = out.deep_view();
                let word = line.substring_char(start, i);
                out.push(String::from_str(word));
                proof {
                    assert(word@ =~= cur);
                    assert(out.deep_view() =~= prev.push(cur));
                    assert(prev.push(cur) =~= prev + pending(cur));
                    assert(prev + (pending(cur) + split_ws_from(rest.drop_first(), Seq::empty()))
                        =~= (prev + pending(cur)) + split_ws_from(rest.drop_first(), Seq::empty()));
                }
            } else {
                proof {
                    assert(cur =~= Seq::<char>::empty());
                    assert(out.deep_view() + pending(cur) =~= out.deep_view());
                }
            }
            proof {
                assert(line@.subrange(i as int + 1, i as int + 1) =~= Seq::<char>::empty());
            }
            start = i + 1;
        } else {
            proof {
                assert(split_ws_from(rest, cur) == split_ws_from(
                    rest.drop_first(),
                    cur.push(rest[0]),
                ));
                assert(cur.push(line@[i as int]) =~= line@.subrange(start as int, i as int + 1));
            }
        }
        i = i + 1;
    }
    let ghost cur = line@.subrange(start as int, n as int);
    proof {
        assert(line@.skip(n as int) =~= Seq::<char>::empty());
        assert(split_ws_from(line@.skip(n as int), cur) == pending(cur));
    }
    if start < n {
        let ghost prev = out.deep_view();
        let word = line.substring_char(start, n);
        out.push(String::from_str(word));
        proof {
            assert(word@ =~= cur);
            assert(out.deep_view() =~= prev.push(cur));
            assert(prev.push(cur) =~= prev + pending(cur));
        }
    } else {
        proof {
            assert(cur =~= Seq::<char>::empty());
            assert(out.deep_view() + pending(cur) =~= out.deep_view());
        }
    }
    out
}

pub(crate) proof fn lemma_split_ws_from_word(w: Seq<char>, rest: Seq<char>, cur: Seq<char>)
    requires
        forall|k: int| 0 <= k < w.len() ==> !is_space(w[k]),
    ensures
        split_ws_from(w + rest, cur) == split_ws_from(rest, cur + w),
    decreases w.len(),
{
    if w.len() == 0 {
        assert(w + rest =~= rest);
        assert(cur + w =~= cur);
    } else {
        assert((w + rest)[0] == w[0]);
        assert(!is_space((w + rest)[0]));
        assert((w + rest).drop_first() =~= w.drop_first() + rest);
        lemma_split_ws_from_word(w.drop_first(), rest, cur.push(w[0]));
        assert(cur.push(w[0]) + w.drop_first() =~= cur + w);
    }
}

/// A leading run of non-space characters followed by a space is the first
/// token of the split; the rest of the line is split on its own.
pub(crate) proof fn lemma_split_ws_leading_word(w: Seq<char>, rest: Seq<char>)
    requires
        w.len() > 0,
        forall|k: int| 0 <= k < w.len() ==> !is_space(w[k]),
    ensures
        split_ws(w + seq![' '] + rest) == seq![w] + split_ws(rest),
{
    assert(w + seq![' '] + rest =~= w + (seq![' '] + rest));
    lemma_split_ws_from_word(w, seq![' '] + rest, Seq::empty());
    assert(Seq::<char>::empty() + w =~= w);
    assert((seq![' '] + rest)[0] == ' ');
    assert((seq![' '] + rest).drop_first() =~= rest);
    assert(split_ws_from(seq![' '] + rest, w) == pending(w) + split_ws_from(
        rest,
        Seq::empty(),
    ));
    assert(pending(w) =~= seq![w]);
}

/// A line that is one run of non-space characters splits into that one
/// token.
pub(crate) proof fn lemma_split_ws_single_word(w: Seq<char>)
    requires
        w.len() > 0,
        forall|k: int| 0 <= k < w.len() ==> !is_space(w[k]),
    ensures
        split_ws(w) == seq![w],
{
    lemma_split_ws_from_word(w, Seq::empty(), Seq::empty());
    assert(w + Seq::<char>::empty() =~= w);
    assert(Seq::<char>::empty() + w =~= w);
    assert(split_ws_from(Seq::<char>::empty(), w) == pending(w));
    assert(pending(w) =~= seq![w]);
}

/// A line of spaces alone splits into no tokens.
pub(crate) proof fn lemma_split_ws_all_space(s: Seq<char>)
    requires
        forall|k: int| 0 <= k < s.len() ==> is_space(s[k]),
    ensures
        split_ws(s) == Seq::<Seq<char>>::empty(),
    decreases s.len(),
{
    if s.len() == 0 {
        assert(split_ws(s) =~= Seq::<Seq<char>>::empty());
    } else {
        assert(is_space(s[0]));
        lemma_split_ws_all_space(s.drop_first());
        assert(pending(Seq::<char>::empty()) + split_ws(s.drop_first()) =~= split_ws(
            s.drop_first(),
        ));
    }
}

} // verus!
