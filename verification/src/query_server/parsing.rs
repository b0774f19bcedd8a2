//! Splitting a query line into words and cleaning up name arguments.

use vstd::prelude::*;
use vstd::string::StrSliceExecFns;
use vstd::string::StringExecFns;
use crate::text::{is_ws, is_whitespace, chars_of, string_of, strip, strip_bounds, sub_chars};

verus! {

/// The words of `rest` appended to `done`, where `cur` is the word being
/// read when `rest` begins: a word is a maximal run of non-white-space
/// characters.
pub open spec fn words_from(done: Seq<Seq<char>>, cur: Seq<char>, rest: Seq<char>) -> Seq<
    Seq<char>,
>
    decreases rest.len(),
{
    if rest.len() == 0 {
        if cur.len() > 0 {
            done.push(cur)
        } else {
            done
        }
    } else if is_ws(rest[0]) {
        words_from(
            if cur.len() > 0 {
                done.push(cur)
            } else {
                done
            },
            seq![],
            rest.drop_first(),
        )
    } else {
        words_from(done, cur.push(rest[0]), rest.drop_first())
    }
}

/// The white-space separated words of `s`, in order.
pub open spec fn words(s: Seq<char>) -> Seq<Seq<char>> {
    words_from(seq![], seq![], s)
}

/// The words `ws` joined with one space between neighbours.
pub open spec fn join_words(ws: Seq<Seq<char>>) -> Seq<char>
    decreases ws.len(),
{
    if ws.len() == 0 {
        seq![]
    } else if ws.len() == 1 {
        ws[0]
    } else {
        join_words(ws.drop_last()) + seq![' '] + ws.last()
    }
}

/// Splits `input` at Unicode white space, dropping empty words
/// (`str::split_whitespace`).
pub fn split_parts<'a>(input: &'a str) -> (parts: Vec<&'a str>)
    ensures
        parts@.map_values(|p: &str| p@) == words(input@),
{
    let cs = chars_of(input);
    let n = cs.len();
    let mut parts: Vec<&'a str> = Vec::new();
    let mut start: usize = 0;
    let mut i: usize = 0;
    assert(cs@.skip(0) =~= cs@);
    assert(cs@.subrange(0, 0) =~= Seq::<char>::empty());
    assert(parts@.map_values(|p: &str| p@) =~= Seq::<Seq<char>>::empty());
    while i < n
        invariant
            n == cs@.len(),
            cs@ == input@,
            start <= i <= n,
            words_from(parts@.map_values(|p: &str| p@), cs@.subrange(start as int, i as int), cs@.skip(i as int))
                == words(input@),
        decreases n - i,
    {
        let ghost done = parts@.map_values(|p: &str| p@);
        let ghost cur = cs@.subrange(start as int, i as int);
        assert(cs@.skip(i as int).drop_first() =~= cs@.skip(i + 1));
        assert(cs@.skip(i as int)[0] == cs@[i as int]);
        if is_whitespace(cs[i]) {
            if start < i {
                let w = input.substring_char(start, i);
                parts.push(w);
                assert(parts@.map_values(|p: &str| p@) =~= done.push(cur));
            }
            start = i + 1;
            assert(cs@.subrange(start as int, (i + 1) as int) =~= Seq::<char>::empty());
        } else {
            assert(cs@.subrange(start as int, (i + 1) as int) =~= cur.push(cs@[i as int]));
        }
        i = i + 1;
    }
    let ghost done = parts@.map_values(|p: &str| p@);
    assert(cs@.skip(n as int) =~= Seq::<char>::empty());
    if start < n {
        let w = input.substring_char(start, n);
        parts.push(w);
        assert(parts@.map_values(|p: &str| p@) =~= done.push(cs@.subrange(start as int, n as int)));
    }
    parts
}


/// The words of `parts` from index `start` on, joined by single spaces; empty
/// when `start` is past the end.
pub fn join_tail(parts: &[&str], start: usize) -> (r: String)
    ensures
        r@ == (if start <= parts@.len() {
            join_words(parts@.subrange(start as int, parts@.len() as int).map_values(|p: &str| p@))
        } else {
            Seq::<char>::empty()
        }),
{
    let mut r = String::new();
    if start >= parts.len() {
        proof {
            if start == parts@.len() {
                assert(parts@.subrange(start as int, parts@.len() as int).map_values(|p: &str| p@)
                    =~= Seq::<Seq<char>>::empty());
            }
        }
        return r;
    }
    let ghost all = parts@.map_values(|p: &str| p@);
    let mut i = start;
    while i < parts.len()
        invariant
            start < parts@.len(),
            start <= i <= parts@.len(),
            all == parts@.map_values(|p: &str| p@),
            r@ == join_words(all.subrange(start as int, i as int)),
        decreases parts@.len() - i,
    {
        let ghost before = all.subrange(start as int, i as int);
        let ghost after = all.subrange(start as int, i + 1);
        assert(after.drop_last() =~= before);
        assert(after.last() == parts@[i as int]@);
        if i > start {
            r.append(" ");
            proof {
                reveal_strlit(" ");
            }
        } else {
            assert(before =~= Seq::<Seq<char>>::empty());
        }
        r.append(parts[i]);
        i = i + 1;
    }
    assert(all.subrange(start as int, parts@.len() as int) =~= parts@.subrange(start as int, parts@.len() as int).map_values(|p: &str| p@));
    r
}

/// The argument `value` with surrounding white space removed, then every
/// leading and trailing double quote removed.
pub open spec fn normalized(value: Seq<char>) -> Seq<char> {
    strip(strip(value, false), true)
}

/// Trims white space, then strips leading and trailing `"` characters.
pub fn normalize_quoted(value: &str) -> (r: String)
    ensures
        r@ == normalized(value@),
{
    let cs = chars_of(value);
    let (a, b) = strip_bounds(&cs, 0, cs.len(), false);
    let (c, d) = strip_bounds(&cs, a, b, true);
    assert(cs@.subrange(0, cs@.len() as int) =~= value@);
    let v = sub_chars(&cs, c, d);
    string_of(v.as_slice())
}


/// `w` is a proper word: not empty, and without white space.
pub open spec fn is_word(w: Seq<char>) -> bool {
    w.len() > 0 && forall|i: int| 0 <= i < w.len() ==> !is_ws(#[trigger] w[i])
}

proof fn lemma_words_from_are_words(done: Seq<Seq<char>>, cur: Seq<char>, rest: Seq<char>)
    requires
        forall|i: int| 0 <= i < done.len() ==> is_word(#[trigger] done[i]),
        forall|i: int| 0 <= i < cur.len() ==> !is_ws(#[trigger] cur[i]),
    ensures
        forall|i: int| 0 <= i < words_from(done, cur, rest).len() ==> is_word(#[trigger] words_from(done, cur, rest)[i]),
    decreases rest.len(),
{
    let d2 = if cur.len() > 0 { done.push(cur) } else { done };
    assert forall|i: int| 0 <= i < d2.len() implies is_word(#[trigger] d2[i]) by {
        if i < done.len() {
            assert(d2[i] == done[i]);
        }
    }
    if rest.len() == 0 {
        assert(words_from(done, cur, rest) == d2);
    } else {
        if is_ws(rest[0]) {
            assert(words_from(done, cur, rest) == words_from(d2, seq![], rest.drop_first()));
            lemma_words_from_are_words(d2, seq![], rest.drop_first());
        } else {
            let c2 = cur.push(rest[0]);
            assert forall|i: int| 0 <= i < c2.len() implies !is_ws(#[trigger] c2[i]) by {
                if i < cur.len() {
                    assert(c2[i] == cur[i]);
                }
            }
            assert(words_from(done, cur, rest) == words_from(done, c2, rest.drop_first()));
            lemma_words_from_are_words(done, c2, rest.drop_first());
        }
    }
}

/// Law: the words of a query are never empty and never hold white space.
pub proof fn law_words_are_words(s: Seq<char>)
    ensures
        forall|i: int| 0 <= i < words(s).len() ==> is_word(#[trigger] words(s)[i]),
{
    lemma_words_from_are_words(seq![], seq![], s);
}

proof fn lemma_words_from_word(done: Seq<Seq<char>>, cur: Seq<char>, w: Seq<char>)
    requires
        forall|i: int| 0 <= i < w.len() ==> !is_ws(#[trigger] w[i]),
    ensures
        words_from(done, cur, w) == (if cur.len() + w.len() > 0 {
            done.push(cur + w)
        } else {
            done
        }),
    decreases w.len(),
{
    if w.len() == 0 {
        assert(cur + w =~= cur);
    } else {
        let c2 = cur.push(w[0]);
        assert forall|i: int| 0 <= i < w.drop_first().len() implies !is_ws(#[trigger] w.drop_first()[i]) by {
            assert(w.drop_first()[i] == w[i + 1]);
        }
        lemma_words_from_word(done, c2, w.drop_first());
        assert(c2 + w.drop_first() =~= cur + w);
    }
}

proof fn lemma_words_from_split(done: Seq<Seq<char>>, cur: Seq<char>, x: Seq<char>, z: Seq<char>)
    requires
        z.len() > 0,
        is_ws(z[0]),
    ensures
        words_from(done, cur, x + z) == words_from(words_from(done, cur, x), seq![], z.drop_first()),
    decreases x.len(),
{
    if x.len() == 0 {
        assert(x + z =~= z);
    } else {
        assert((x + z)[0] == x[0]);
        assert((x + z).drop_first() =~= x.drop_first() + z);
        if is_ws(x[0]) {
            let d2 = if cur.len() > 0 { done.push(cur) } else { done };
            lemma_words_from_split(d2, seq![], x.drop_first(), z);
        } else {
            lemma_words_from_split(done, cur.push(x[0]), x.drop_first(), z);
        }
    }
}

proof fn lemma_words_of_joined(done: Seq<Seq<char>>, ws: Seq<Seq<char>>)
    requires
        forall|i: int| 0 <= i < ws.len() ==> is_word(#[trigger] ws[i]),
    ensures
        words_from(done, seq![], join_words(ws)) == done + ws,
    decreases ws.len(),
{
    if ws.len() == 0 {
        assert(done + ws =~= done);
    } else if ws.len() == 1 {
        assert(is_word(ws[0]));
        lemma_words_from_word(done, seq![], ws[0]);
        assert(seq![] + ws[0] =~= ws[0]);
        assert(done + ws =~= done.push(ws[0]));
    } else {
        let front = ws.drop_last();
        assert forall|i: int| 0 <= i < front.len() implies is_word(#[trigger] front[i]) by {
            assert(front[i] == ws[i]);
        }
        lemma_words_of_joined(done, front);
        let z = seq![' '] + ws.last();
        assert(join_words(ws) =~= join_words(front) + z);
        assert(is_ws(z[0]));
        lemma_words_from_split(done, seq![], join_words(front), z);
        assert(z.drop_first() =~= ws.last());
        assert(is_word(ws[ws.len() - 1]));
        lemma_words_from_word(done + front, seq![], ws.last());
        assert(seq![] + ws.last() =~= ws.last());
        assert(done + ws =~= (done + front).push(ws.last()));
    }
}

/// Law: words joined by single spaces split back into the same words.
pub proof fn law_split_after_join(ws: Seq<Seq<char>>)
    requires
        forall|i: int| 0 <= i < ws.len() ==> is_word(#[trigger] ws[i]),
    ensures
        words(join_words(ws)) == ws,
{
    lemma_words_of_joined(seq![], ws);
    assert(Seq::<Seq<char>>::empty() + ws =~= ws);
}

/// Joined words begin with the first word's first character and end with
/// the last word's last character.
pub proof fn lemma_join_words_ends(ws: Seq<Seq<char>>)
    requires
        ws.len() > 0,
        forall|i: int| 0 <= i < ws.len() ==> is_word(#[trigger] ws[i]),
    ensures
        join_words(ws).len() > 0,
        join_words(ws)[0] == ws[0][0],
        join_words(ws).last() == ws.last().last(),
    decreases ws.len(),
{
    assert(is_word(ws[0]));
    assert(is_word(ws[ws.len() - 1]));
    if ws.len() > 1 {
        let front = ws.drop_last();
        assert forall|i: int| 0 <= i < front.len() implies is_word(#[trigger] front[i]) by {
            assert(front[i] == ws[i]);
        }
        lemma_join_words_ends(front);
        let j = join_words(front) + seq![' '] + ws.last();
        assert(join_words(ws) == j);
        assert(j[0] == join_words(front)[0]);
        assert(j.last() == ws.last().last());
    }
}

/// Law: a name argument made of whole words, the first not opening with a
/// double quote and the last not closing with one, is those words joined
/// by single spaces, and splits back into them.
pub proof fn law_name_argument_keeps_words(ws: Seq<Seq<char>>)
    requires
        ws.len() > 0,
        forall|i: int| 0 <= i < ws.len() ==> is_word(#[trigger] ws[i]),
        ws[0][0] != '"',
        ws.last().last() != '"',
    ensures
        normalized(join_words(ws)) == join_words(ws),
        words(normalized(join_words(ws))) == ws,
{
    lemma_join_words_ends(ws);
    let j = join_words(ws);
    assert(is_word(ws[0]));
    assert(is_word(ws[ws.len() - 1]));
    assert(!is_ws(ws[0][0]));
    assert(!is_ws(ws.last()[ws.last().len() - 1]));
    crate::text::lemma_strip_unchanged(j, false);
    crate::text::lemma_strip_unchanged(j, true);
    law_split_after_join(ws);
}

/// Law: a name argument, once normalized, neither starts nor ends with a
/// double quote.
pub proof fn law_normalized_has_no_outer_quotes(value: Seq<char>)
    ensures
        normalized(value).len() > 0 ==> normalized(value)[0] != '"' && normalized(value).last() != '"',
{
    crate::text::law_strip_ends(strip(value, false), true);
}

} // verus!
