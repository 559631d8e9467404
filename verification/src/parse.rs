//! Splitting a line into whitespace-separated tokens.

use vstd::prelude::*;
use crate::text::{is_space, is_space_char, all_space, no_space, trimmed};
use crate::text::{lemma_trim_start_idx, lemma_trim_end_idx};

verus! {

/// One step at a time over `s`, carrying the token built so far (`cur`) and
/// the tokens already complete (`acc`).
pub open spec fn tokens_go(s: Seq<char>, cur: Seq<char>, acc: Seq<Seq<char>>) -> Seq<Seq<char>>
    decreases s.len(),
{
    if s.len() == 0 {
        if cur.len() > 0 {
            acc.push(cur)
        } else {
            acc
        }
    } else if is_space(s[0]) {
        if cur.len() > 0 {
            tokens_go(s.drop_first(), Seq::empty(), acc.push(cur))
        } else {
            tokens_go(s.drop_first(), Seq::empty(), acc)
        }
    } else {
        tokens_go(s.drop_first(), cur.push(s[0]), acc)
    }
}

/// The maximal runs of non-whitespace characters of `s`, in order.
pub open spec fn tokens(s: Seq<char>) -> Seq<Seq<char>> {
    tokens_go(s, Seq::empty(), Seq::empty())
}

/// Tokens already accumulated pass through unchanged.
proof fn lemma_go_acc(s: Seq<char>, cur: Seq<char>, acc: Seq<Seq<char>>)
    ensures
        tokens_go(s, cur, acc) =~= acc + tokens_go(s, cur, Seq::empty()),
    decreases s.len(),
{
    if s.len() == 0 {
    } else if is_space(s[0]) {
        if cur.len() > 0 {
            lemma_go_acc(s.drop_first(), Seq::empty(), acc.push(cur));
            lemma_go_acc(s.drop_first(), Seq::empty(), Seq::<Seq<char>>::empty().push(cur));
            assert(acc.push(cur) =~= acc + Seq::<Seq<char>>::empty().push(cur));
        } else {
            lemma_go_acc(s.drop_first(), Seq::empty(), acc);
        }
    } else {
        lemma_go_acc(s.drop_first(), cur.push(s[0]), acc);
    }
}

/// A wholly-whitespace input adds nothing beyond closing the open token.
proof fn lemma_go_all_space(w: Seq<char>, cur: Seq<char>, acc: Seq<Seq<char>>)
    requires
        all_space(w),
    ensures
        tokens_go(w, cur, acc) == if cur.len() > 0 {
            acc.push(cur)
        } else {
            acc
        },
    decreases w.len(),
{
    if w.len() > 0 {
        assert(all_space(w.drop_first()));
        if cur.len() > 0 {
            lemma_go_all_space(w.drop_first(), Seq::empty(), acc.push(cur));
        } else {
            lemma_go_all_space(w.drop_first(), Seq::empty(), acc);
        }
    }
}

/// Leading whitespace closes the open token and is otherwise skipped.
proof fn lemma_go_space_prefix(w: Seq<char>, s: Seq<char>, cur: Seq<char>, acc: Seq<Seq<char>>)
    requires
        all_space(w),
        w.len() > 0,
    ensures
        tokens_go(w + s, cur, acc) == tokens_go(
            s,
            Seq::empty(),
            if cur.len() > 0 {
                acc.push(cur)
            } else {
                acc
            },
        ),
    decreases w.len(),
{
    let ws = w + s;
    assert(is_space(ws[0]));
    assert(ws.drop_first() =~= w.drop_first() + s);
    if w.len() == 1 {
        assert(w.drop_first() + s =~= s);
    } else {
        assert(all_space(w.drop_first()));
        if cur.len() > 0 {
            lemma_go_space_prefix(w.drop_first(), s, Seq::empty(), acc.push(cur));
        } else {
            lemma_go_space_prefix(w.drop_first(), s, Seq::empty(), acc);
        }
    }
}

/// A non-whitespace prefix extends the open token.
proof fn lemma_go_word_prefix(t: Seq<char>, s: Seq<char>, cur: Seq<char>, acc: Seq<Seq<char>>)
    requires
        no_space(t),
    ensures
        tokens_go(t + s, cur, acc) == tokens_go(s, cur + t, acc),
    decreases t.len(),
{
    if t.len() == 0 {
        assert(t + s =~= s);
        assert(cur + t =~= cur);
    } else {
        let ts = t + s;
        assert(!is_space(ts[0]));
        assert(ts.drop_first() =~= t.drop_first() + s);
        assert(no_space(t.drop_first()));
        lemma_go_word_prefix(t.drop_first(), s, cur.push(t[0]), acc);
        assert(cur.push(t[0]) + t.drop_first() =~= cur + t);
    }
}

/// Leading whitespace never yields a token.
pub proof fn lemma_tokens_space_prefix(w: Seq<char>, s: Seq<char>)
    requires
        all_space(w),
    ensures
        tokens(w + s) == tokens(s),
{
    if w.len() == 0 {
        assert(w + s =~= s);
    } else {
        lemma_go_space_prefix(w, s, Seq::empty(), Seq::empty());
    }
}

/// Trailing whitespace never yields a token.
pub proof fn lemma_tokens_space_suffix(s: Seq<char>, w: Seq<char>)
    requires
        all_space(w),
    ensures
        tokens(s + w) == tokens(s),
{
    lemma_go_space_suffix(s, w, Seq::empty(), Seq::empty());
}

proof fn lemma_go_space_suffix(s: Seq<char>, w: Seq<char>, cur: Seq<char>, acc: Seq<Seq<char>>)
    requires
        all_space(w),
    ensures
        tokens_go(s + w, cur, acc) == tokens_go(s, cur, acc),
    decreases s.len(),
{
    if s.len() == 0 {
        assert(s + w =~= w);
        lemma_go_all_space(w, cur, acc);
    } else {
        let sw = s + w;
        assert(sw[0] == s[0]);
        assert(sw.drop_first() =~= s.drop_first() + w);
        if is_space(s[0]) {
            if cur.len() > 0 {
                lemma_go_space_suffix(s.drop_first(), w, Seq::empty(), acc.push(cur));
            } else {
                lemma_go_space_suffix(s.drop_first(), w, Seq::empty(), acc);
            }
        } else {
            lemma_go_space_suffix(s.drop_first(), w, cur.push(s[0]), acc);
        }
    }
}

/// A maximal non-whitespace run at the front is exactly the first token.
pub proof fn lemma_tokens_word_prefix(t: Seq<char>, s: Seq<char>)
    requires
        no_space(t),
        t.len() > 0,
        s.len() == 0 || is_space(s[0]),
    ensures
        tokens(t + s) =~= seq![t] + tokens(s),
{
    lemma_go_word_prefix(t, s, Seq::empty(), Seq::empty());
    assert(Seq::<char>::empty() + t =~= t);
    if s.len() == 0 {
        assert(tokens_go(s, t, Seq::empty()) =~= seq![t]);
        assert(tokens(s) =~= Seq::<Seq<char>>::empty());
    } else {
        assert(tokens_go(s, t, Seq::empty()) == tokens_go(
            s.drop_first(),
            Seq::empty(),
            Seq::<Seq<char>>::empty().push(t),
        ));
        lemma_go_acc(s.drop_first(), Seq::empty(), Seq::<Seq<char>>::empty().push(t));
        assert(Seq::<Seq<char>>::empty().push(t) =~= seq![t]);
        assert(tokens(s) == tokens(s.drop_first()));
    }
}

/// A token: a nonempty run of non-whitespace characters.
pub open spec fn is_token(t: Seq<char>) -> bool {
    t.len() > 0 && no_space(t)
}

/// Every element of `ts` is a token.
pub open spec fn all_tokens(ts: Seq<Seq<char>>) -> bool {
    forall|k: int| 0 <= k < ts.len() ==> is_token(#[trigger] ts[k])
}

proof fn lemma_go_wf(s: Seq<char>, cur: Seq<char>, acc: Seq<Seq<char>>)
    requires
        no_space(cur),
        all_tokens(acc),
    ensures
        all_tokens(tokens_go(s, cur, acc)),
    decreases s.len(),
{
    if cur.len() > 0 {
        assert(all_tokens(acc.push(cur))) by {
            assert forall|k: int| 0 <= k < acc.push(cur).len() implies is_token(
                #[trigger] acc.push(cur)[k],
            ) by {
                if k == acc.len() {
                    assert(acc.push(cur)[k] == cur);
                }
            }
        }
    }
    if s.len() == 0 {
    } else if is_space(s[0]) {
        if cur.len() > 0 {
            lemma_go_wf(s.drop_first(), Seq::empty(), acc.push(cur));
        } else {
            lemma_go_wf(s.drop_first(), Seq::empty(), acc);
        }
    } else {
        assert(no_space(cur.push(s[0]))) by {
            assert forall|i: int| 0 <= i < cur.push(s[0]).len() implies !is_space(
                #[trigger] cur.push(s[0])[i],
            ) by {
                if i == cur.len() {
                    assert(cur.push(s[0])[i] == s[0]);
                }
            }
        }
        lemma_go_wf(s.drop_first(), cur.push(s[0]), acc);
    }
}

/// Splitting never produces an empty or whitespace-holding token.
pub proof fn lemma_tokens_wf(s: Seq<char>)
    ensures
        all_tokens(tokens(s)),
{
    lemma_go_wf(s, Seq::empty(), Seq::empty());
}

proof fn lemma_go_len(s: Seq<char>, cur: Seq<char>, acc: Seq<Seq<char>>)
    ensures
        tokens_go(s, cur, acc).len() >= acc.len() + if cur.len() > 0 {
            1int
        } else {
            0int
        },
    decreases s.len(),
{
    if s.len() == 0 {
    } else if is_space(s[0]) {
        if cur.len() > 0 {
            lemma_go_len(s.drop_first(), Seq::empty(), acc.push(cur));
        } else {
            lemma_go_len(s.drop_first(), Seq::empty(), acc);
        }
    } else {
        lemma_go_len(s.drop_first(), cur.push(s[0]), acc);
    }
}

/// A line yields no tokens exactly when it consists of whitespace alone.
pub proof fn lemma_tokens_empty_iff(s: Seq<char>)
    ensures
        tokens(s).len() == 0 <==> all_space(s),
{
    if all_space(s) {
        lemma_go_all_space(s, Seq::empty(), Seq::empty());
    } else {
        lemma_trim_start_idx(s, 0);
        let a = crate::text::trim_start_idx(s, 0);
        assert(a < s.len()) by {
            if a == s.len() {
                assert forall|i: int| 0 <= i < s.len() implies is_space(s[i]) by {}
            }
        }
        let pre = s.subrange(0, a);
        let rest = s.subrange(a, s.len() as int);
        assert(s =~= pre + rest);
        assert(all_space(pre));
        lemma_tokens_space_prefix(pre, rest);
        assert(!is_space(rest[0]));
        assert(tokens_go(rest, Seq::empty(), Seq::empty()) == tokens_go(
            rest.drop_first(),
            Seq::<char>::empty().push(rest[0]),
            Seq::empty(),
        ));
        lemma_go_len(rest.drop_first(), Seq::<char>::empty().push(rest[0]), Seq::empty());
    }
}

/// Trimming a line does not change its tokens.
pub proof fn lemma_tokens_trimmed(s: Seq<char>)
    ensures
        tokens(trimmed(s)) == tokens(s),
{
    lemma_trim_start_idx(s, 0);
    lemma_trim_end_idx(s, s.len() as int);
    let a = crate::text::trim_start_idx(s, 0);
    let b = crate::text::trim_end_idx(s, s.len() as int);
    if a < b {
        let pre = s.subrange(0, a);
        let mid = s.subrange(a, b);
        let post = s.subrange(b, s.len() as int);
        assert(s =~= pre + (mid + post));
        assert(all_space(pre));
        assert(all_space(post));
        lemma_tokens_space_prefix(pre, mid + post);
        lemma_tokens_space_suffix(mid, post);
    } else {
        assert forall|i: int| 0 <= i < s.len() implies is_space(s[i]) by {
            if !is_space(s[i]) {
                assert(a <= i);
                assert(i < b);
            }
        }
        lemma_go_all_space(s, Seq::empty(), Seq::empty());
    }
}

/// Tokens interleaved with whitespace separators: `seps[0]` comes before
/// `toks[0]`, `seps[1]` between `toks[0]` and `toks[1]`, and so on.
pub open spec fn joined(toks: Seq<Seq<char>>, seps: Seq<Seq<char>>) -> Seq<char>
    decreases toks.len(),
{
    if toks.len() == 0 {
        Seq::empty()
    } else {
        seps[0] + toks[0] + joined(toks.drop_first(), seps.drop_first())
    }
}

/// The shape splitting inverts: every piece is a real token, every separator
/// is whitespace, and every separator between two tokens is nonempty. The
/// leading separator may be empty.
pub open spec fn wf_join(toks: Seq<Seq<char>>, seps: Seq<Seq<char>>) -> bool {
    &&& seps.len() == toks.len()
    &&& all_tokens(toks)
    &&& forall|i: int| 0 <= i < seps.len() ==> all_space(#[trigger] seps[i])
    &&& forall|i: int| 1 <= i < seps.len() ==> (#[trigger] seps[i]).len() > 0
}

proof fn lemma_tokens_of_joined(toks: Seq<Seq<char>>, seps: Seq<Seq<char>>)
    requires
        wf_join(toks, seps),
    ensures
        tokens(joined(toks, seps)) =~= toks,
    decreases toks.len(),
{
    if toks.len() > 0 {
        let rest = joined(toks.drop_first(), seps.drop_first());
        assert(seps[0] + toks[0] + rest =~= seps[0] + (toks[0] + rest));
        lemma_tokens_space_prefix(seps[0], toks[0] + rest);
        if toks.len() > 1 {
            assert(rest == seps[1] + toks.drop_first()[0] + joined(
                toks.drop_first().drop_first(),
                seps.drop_first().drop_first(),
            ));
            assert(seps[1].len() > 0);
            assert(rest[0] == seps[1][0]);
            assert(is_space(rest[0]));
        } else {
            assert(rest.len() == 0);
        }
        lemma_tokens_word_prefix(toks[0], rest);
        assert(wf_join(toks.drop_first(), seps.drop_first()));
        lemma_tokens_of_joined(toks.drop_first(), seps.drop_first());
    }
}

/// Splitting inverts joining: a line made of tokens separated by runs of
/// whitespace, with optional leading and trailing whitespace, splits back
/// into exactly those tokens, in order, with no empty token among them.
pub proof fn lemma_parse_round_trip(toks: Seq<Seq<char>>, seps: Seq<Seq<char>>, trail: Seq<char>)
    requires
        wf_join(toks, seps),
        all_space(trail),
    ensures
        tokens(joined(toks, seps) + trail) =~= toks,
{
    lemma_tokens_space_suffix(joined(toks, seps), trail);
    lemma_tokens_of_joined(toks, seps);
}

/// The views of a list of string slices.
pub open spec fn views_of<'a>(v: Seq<&'a str>) -> Seq<Seq<char>> {
    v.map_values(|t: &str| t@)
}

/// Splits `s` into its maximal runs of non-whitespace characters.
pub fn split_tokens<'a>(s: &'a str) -> (toks: Vec<&'a str>)
    ensures
        views_of(toks@) =~= tokens(s@),
{
    let n = s.unicode_len();
    let mut toks: Vec<&'a str> = Vec::new();
    let mut i: usize = 0;
    proof {
        assert(s@.skip(0) =~= s@);
    }
    while i < n
        invariant
            0 <= i <= n == s@.len(),
            tokens(s@) =~= views_of(toks@) + tokens(s@.skip(i as int)),
        decreases n - i,
    {
        if is_space_char(s.get_char(i)) {
            proof {
                assert(s@.skip(i as int).drop_first() =~= s@.skip(i + 1));
                assert(tokens(s@.skip(i as int)) == tokens(s@.skip(i + 1)));
            }
            i = i + 1;
        } else {
            let start = i;
            let mut j = i + 1;
            while j < n && !is_space_char(s.get_char(j))
                invariant
                    0 <= start < j <= n == s@.len(),
                    forall|k: int| start <= k < j ==> !is_space(s@[k]),
                decreases n - j,
            {
                j = j + 1;
            }
            let tok = s.substring_char(start, j);
            toks.push(tok);
            proof {
                let rest = s@.skip(start as int);
                let word = s@.subrange(start as int, j as int);
                let tail = s@.skip(j as int);
                assert(rest =~= word + tail);
                assert(no_space(word));
                assert(tail.len() == 0 || is_space(tail[0]));
                lemma_tokens_word_prefix(word, tail);
                assert(tok@ == word);
                assert(views_of(toks@) =~= views_of(toks@.drop_last()) + seq![word]);
                assert(views_of(toks@) + tokens(tail) =~= views_of(toks@.drop_last()) + (seq![
                    word,
                ] + tokens(tail)));
            }
            i = j;
        }
    }
    proof {
        assert(s@.skip(n as int).len() == 0);
        assert(tokens(s@.skip(n as int)) =~= Seq::<Seq<char>>::empty());
        assert(tokens(s@) =~= views_of(toks@));
    }
    toks
}

/// Splits a line into a command and its arguments: the first token is the
/// command and the remaining tokens, in order, are the arguments. A line
/// with no token yields the empty command and no arguments.
pub fn parse_line<'a>(input: &'a str) -> (r: (&'a str, Vec<&'a str>))
    ensures
        tokens(input@).len() == 0 ==> r.0@ =~= Seq::<char>::empty() && r.1@.len() == 0,
        tokens(input@).len() > 0 ==> r.0@ == tokens(input@)[0] && views_of(r.1@) =~= tokens(
            input@,
        ).drop_first(),
{
    let mut toks = split_tokens(input);
    if toks.len() == 0 {
        proof {
            reveal_strlit("");
        }
        ("", toks)
    } else {
        let command = toks.remove(0);
        proof {
            assert(views_of(toks@) =~= tokens(input@).drop_first());
        }
        (command, toks)
    }
}

} // verus!
