//! White space, tokens, and the split of a text into its first tokens and
//! the rest, as mathematical functions on characters.

use vstd::prelude::*;

use crate::values::trim_end;

verus! {

/// Whether `c` is white space in the sense of Unicode's `White_Space`
/// property (the characters for which `char::is_whitespace` holds).
pub open spec fn is_blank(c: char) -> bool {
    let u = c as u32;
    ||| 0x9 <= u <= 0xD
    ||| u == 0x20
    ||| u == 0x85
    ||| u == 0xA0
    ||| u == 0x1680
    ||| 0x2000 <= u <= 0x200A
    ||| u == 0x2028
    ||| u == 0x2029
    ||| u == 0x202F
    ||| u == 0x205F
    ||| u == 0x3000
}

/// `s` without its leading white space.
pub open spec fn skip_blanks(s: Seq<char>) -> Seq<char>
    decreases s.len(),
{
    if s.len() > 0 && is_blank(s[0]) {
        skip_blanks(s.drop_first())
    } else {
        s
    }
}

/// The longest prefix of `s` that holds no white space.
pub open spec fn word(s: Seq<char>) -> Seq<char>
    decreases s.len(),
{
    if s.len() > 0 && !is_blank(s[0]) {
        seq![s[0]] + word(s.drop_first())
    } else {
        Seq::empty()
    }
}

/// What follows `word(s)` in `s`.
pub open spec fn after_word(s: Seq<char>) -> Seq<char>
    decreases s.len(),
{
    if s.len() > 0 && !is_blank(s[0]) {
        after_word(s.drop_first())
    } else {
        s
    }
}

/// The first `n` tokens of `s` and the text after the separator that ended
/// the last of them; when `s` runs out of tokens first, all of them and an
/// empty rest.
pub open spec fn split_spec(s: Seq<char>, n: nat) -> (Seq<Seq<char>>, Seq<char>)
    decreases s.len(),
    via split_spec_decreases
{
    if n == 0 {
        (Seq::empty(), s)
    } else {
        let t = skip_blanks(s);
        if t.len() == 0 {
            (Seq::empty(), Seq::empty())
        } else {
            let a = after_word(t);
            if a.len() == 0 {
                (seq![word(t)], Seq::empty())
            } else {
                let (ws, r) = split_spec(a.drop_first(), (n - 1) as nat);
                (seq![word(t)] + ws, r)
            }
        }
    }
}

#[via_fn]
proof fn split_spec_decreases(s: Seq<char>, n: nat) {
    lemma_skip_blanks_len(s);
    lemma_after_word_len(skip_blanks(s));
}

/// All the tokens of `s`: its maximal runs of characters that are not white space.
pub open spec fn tokens(s: Seq<char>) -> Seq<Seq<char>>
    decreases s.len(),
    via tokens_decreases
{
    let t = skip_blanks(s);
    if t.len() == 0 {
        Seq::empty()
    } else {
        seq![word(t)] + tokens(after_word(t))
    }
}

#[via_fn]
proof fn tokens_decreases(s: Seq<char>) {
    let t = skip_blanks(s);
    lemma_skip_blanks_len(s);
    lemma_after_word_len(t);
    if t.len() > 0 {
        lemma_skip_blanks_first(s);
        reveal_with_fuel(after_word, 2);
    }
}

pub(crate) proof fn lemma_skip_blanks_len(s: Seq<char>)
    ensures
        skip_blanks(s).len() <= s.len(),
    decreases s.len(),
{
    if s.len() > 0 && is_blank(s[0]) {
        lemma_skip_blanks_len(s.drop_first());
    }
}

pub(crate) proof fn lemma_skip_blanks_first(s: Seq<char>)
    ensures
        skip_blanks(s).len() > 0 ==> !is_blank(skip_blanks(s)[0]),
    decreases s.len(),
{
    if s.len() > 0 && is_blank(s[0]) {
        lemma_skip_blanks_first(s.drop_first());
    }
}

pub(crate) proof fn lemma_after_word_len(s: Seq<char>)
    ensures
        after_word(s).len() <= s.len(),
        s.len() > 0 && !is_blank(s[0]) ==> after_word(s).len() < s.len(),
    decreases s.len(),
{
    if s.len() > 0 && !is_blank(s[0]) {
        lemma_after_word_len(s.drop_first());
    }
}

pub(crate) proof fn lemma_skip_step(s: Seq<char>, i: int)
    requires
        0 <= i <= s.len(),
    ensures
        i < s.len() && is_blank(s[i]) ==> skip_blanks(s.skip(i)) == skip_blanks(s.skip(i + 1)),
        !(i < s.len() && is_blank(s[i])) ==> skip_blanks(s.skip(i)) == s.skip(i),
{
    if i < s.len() {
        assert(s.skip(i).drop_first() =~= s.skip(i + 1));
    }
}

pub(crate) proof fn lemma_word_step(s: Seq<char>, i: int)
    requires
        0 <= i <= s.len(),
    ensures
        i < s.len() && !is_blank(s[i]) ==> word(s.skip(i)) == seq![s[i]] + word(s.skip(i + 1))
            && after_word(s.skip(i)) == after_word(s.skip(i + 1)),
        !(i < s.len() && !is_blank(s[i])) ==> word(s.skip(i)) == Seq::<char>::empty()
            && after_word(s.skip(i)) == s.skip(i),
{
    if i < s.len() {
        assert(s.skip(i).drop_first() =~= s.skip(i + 1));
    }
}

/// Taking no tokens leaves the text as it is.
pub proof fn lemma_split_none(s: Seq<char>)
    ensures
        split_spec(s, 0) == (Seq::<Seq<char>>::empty(), s),
{
}

/// Asking for at least as many tokens as there are gives all of them and an
/// empty rest. Asking for exactly as many holds back what follows the
/// separator after the last token, so there the text may end in at most one
/// white space character, and a text without tokens must be empty.
pub proof fn lemma_split_all(s: Seq<char>, n: nat)
    requires
        n >= tokens(s).len(),
        n > tokens(s).len() || ((n > 0 || s.len() == 0) && s.len() <= trim_end(s).len() + 1),
    ensures
        split_spec(s, n) == (tokens(s), Seq::<char>::empty()),
{
    if n == tokens(s).len() {
        lemma_split_exact(s, n);
    } else {
        lemma_split_beyond(s, n);
    }
}

proof fn lemma_split_beyond(s: Seq<char>, n: nat)
    requires
        n > tokens(s).len(),
    ensures
        split_spec(s, n) == (tokens(s), Seq::<char>::empty()),
    decreases s.len(),
{
    let t = skip_blanks(s);
    lemma_skip_blanks_len(s);
    if t.len() > 0 {
        let a = after_word(t);
        lemma_after_word_len(t);
        lemma_skip_blanks_first(s);
        reveal_with_fuel(after_word, 2);
        lemma_after_word_first(t);
        if a.len() == 0 {
            assert(tokens(a) =~= Seq::<Seq<char>>::empty());
            assert(tokens(s) =~= seq![word(t)]);
        } else {
            assert(skip_blanks(a) == skip_blanks(a.drop_first()));
            assert(tokens(a) == tokens(a.drop_first()));
            lemma_split_beyond(a.drop_first(), (n - 1) as nat);
        }
    }
}

proof fn lemma_split_exact(s: Seq<char>, n: nat)
    requires
        n == tokens(s).len(),
        n > 0 || s.len() == 0,
        s.len() <= trim_end(s).len() + 1,
    ensures
        split_spec(s, n) == (tokens(s), Seq::<char>::empty()),
    decreases s.len(),
{
    let t = skip_blanks(s);
    lemma_skip_blanks_len(s);
    if n > 0 {
        assert(t.len() > 0);
        let a = after_word(t);
        let w = word(t);
        lemma_skip_blanks_first(s);
        lemma_after_word_len(t);
        reveal_with_fuel(after_word, 2);
        lemma_after_word_first(t);
        if a.len() == 0 {
            assert(tokens(a) =~= Seq::<Seq<char>>::empty());
            assert(tokens(s) =~= seq![w]);
        } else {
            let a2 = a.drop_first();
            assert(skip_blanks(a) == skip_blanks(a2));
            assert(tokens(a) == tokens(a2));
            let pre = s.take(s.len() - t.len());
            lemma_skip_blanks_suffix(s);
            lemma_word_split(t);
            let head = pre + w + seq![a[0]];
            assert(s =~= head + a2);
            if n == 1 {
                lemma_blank_free_has_tokens(a2);
                if a2.len() > 0 {
                    let y = pre + w;
                    assert(s =~= y + a);
                    assert forall|i: int| 0 <= i < a.len() implies is_blank(#[trigger] a[i]) by {
                        if i > 0 {
                            assert(a[i] == a2[i - 1]);
                        }
                    }
                    lemma_trim_end_blank_tail(y, a);
                    assert(y.last() == w.last());
                    assert(!is_blank(w[w.len() - 1]));
                    assert(trim_end(y) == y);
                    assert(false);
                }
                assert(tokens(s) =~= seq![w]);
                assert(a2 =~= Seq::<char>::empty());
                assert(split_spec(a2, 0) == (Seq::<Seq<char>>::empty(), a2));
                assert(split_spec(s, n).1 == Seq::<char>::empty());
                assert(split_spec(s, n).0 =~= seq![w]);
            } else {
                lemma_blank_free_has_tokens(a2);
                lemma_trim_end_append(head, a2);
                lemma_split_exact(a2, (n - 1) as nat);
                assert(tokens(s) == seq![w] + tokens(a2));
                assert(split_spec(s, n) == (seq![w] + tokens(a2), Seq::<char>::empty()));
            }
        }
    } else {
        assert(t.len() == 0);
        assert(tokens(s) =~= Seq::<Seq<char>>::empty());
        assert(s =~= Seq::<char>::empty());
    }
}

proof fn lemma_skip_blanks_suffix(s: Seq<char>)
    ensures
        skip_blanks(s).len() <= s.len(),
        s == s.take(s.len() - skip_blanks(s).len()) + skip_blanks(s),
    decreases s.len(),
{
    lemma_skip_blanks_len(s);
    if s.len() > 0 && is_blank(s[0]) {
        let r = s.drop_first();
        lemma_skip_blanks_suffix(r);
        let k = skip_blanks(r).len();
        assert(s.take(s.len() - k) =~= seq![s[0]] + r.take(r.len() - k));
        assert(s =~= seq![s[0]] + r);
        assert(seq![s[0]] + (r.take(r.len() - k) + skip_blanks(r)) =~= (seq![s[0]] + r.take(
            r.len() - k,
        )) + skip_blanks(r));
    } else {
        assert(s =~= s.take(0) + s);
    }
}

proof fn lemma_word_split(t: Seq<char>)
    ensures
        t == word(t) + after_word(t),
        forall|i: int| 0 <= i < word(t).len() ==> !is_blank(#[trigger] word(t)[i]),
    decreases t.len(),
{
    if t.len() > 0 && !is_blank(t[0]) {
        lemma_word_split(t.drop_first());
        let w = word(t.drop_first());
        let aw = after_word(t.drop_first());
        assert(t =~= seq![t[0]] + t.drop_first());
        assert(seq![t[0]] + (w + aw) =~= (seq![t[0]] + w) + aw);
        assert forall|i: int| 0 <= i < word(t).len() implies !is_blank(#[trigger] word(t)[i]) by {
            if i > 0 {
                assert(word(t)[i] == w[i - 1]);
            }
        }
    } else {
        assert(t =~= Seq::<char>::empty() + t);
    }
}

/// A text made only of white space holds no tokens.
proof fn lemma_blank_free_has_tokens(x: Seq<char>)
    ensures
        (forall|i: int| 0 <= i < x.len() ==> is_blank(#[trigger] x[i])) ==> tokens(x).len() == 0,
        tokens(x).len() == 0 ==> forall|i: int| 0 <= i < x.len() ==> is_blank(#[trigger] x[i]),
    decreases x.len(),
{
    lemma_skip_blanks_len(x);
    if x.len() > 0 {
        if is_blank(x[0]) {
            lemma_blank_free_has_tokens(x.drop_first());
            assert(skip_blanks(x) == skip_blanks(x.drop_first()));
            assert(tokens(x) == tokens(x.drop_first()));
            assert forall|i: int| 0 <= i < x.len() && tokens(x).len() == 0 implies is_blank(#[trigger] x[i]) by {
                if i > 0 {
                    assert(x[i] == x.drop_first()[i - 1]);
                }
            }
            if forall|i: int| 0 <= i < x.len() ==> is_blank(#[trigger] x[i]) {
                assert forall|i: int| 0 <= i < x.drop_first().len() implies is_blank(#[trigger] x.drop_first()[i]) by {
                    assert(x.drop_first()[i] == x[i + 1]);
                }
            }
        } else {
            assert(skip_blanks(x) == x);
            assert(tokens(x).len() > 0);
        }
    }
}

proof fn lemma_trim_end_blank_tail(y: Seq<char>, x: Seq<char>)
    requires
        forall|i: int| 0 <= i < x.len() ==> is_blank(#[trigger] x[i]),
    ensures
        trim_end(y + x) == trim_end(y),
    decreases x.len(),
{
    if x.len() > 0 {
        assert((y + x).drop_last() =~= y + x.drop_last());
        assert((y + x).last() == x[x.len() - 1]);
        lemma_trim_end_blank_tail(y, x.drop_last());
    } else {
        assert(y + x =~= y);
    }
}

proof fn lemma_trim_end_append(y: Seq<char>, x: Seq<char>)
    requires
        exists|i: int| 0 <= i < x.len() && !is_blank(#[trigger] x[i]),
    ensures
        trim_end(y + x) == y + trim_end(x),
    decreases x.len(),
{
    let k = choose|i: int| 0 <= i < x.len() && !is_blank(#[trigger] x[i]);
    assert((y + x).last() == x.last());
    if is_blank(x.last()) {
        assert(k < x.len() - 1);
        assert(x.drop_last()[k] == x[k]);
        assert((y + x).drop_last() =~= y + x.drop_last());
        lemma_trim_end_append(y, x.drop_last());
    }
}

proof fn lemma_after_word_first(s: Seq<char>)
    ensures
        after_word(s).len() > 0 ==> is_blank(after_word(s)[0]),
    decreases s.len(),
{
    if s.len() > 0 && !is_blank(s[0]) {
        lemma_after_word_first(s.drop_first());
    }
}

/// Tokens are separated, so a text of `k` characters holds at most
/// `(k + 1) / 2` of them.
pub proof fn lemma_tokens_len(s: Seq<char>)
    ensures
        2 * tokens(s).len() <= s.len() + 1,
    decreases s.len(),
{
    let t = skip_blanks(s);
    lemma_skip_blanks_len(s);
    if t.len() > 0 {
        let a = after_word(t);
        lemma_skip_blanks_first(s);
        lemma_after_word_len(t);
        reveal_with_fuel(after_word, 2);
        lemma_after_word_first(t);
        if a.len() > 0 {
            assert(skip_blanks(a) == skip_blanks(a.drop_first()));
            assert(tokens(a) == tokens(a.drop_first()));
            lemma_tokens_len(a.drop_first());
        } else {
            assert(tokens(a) =~= Seq::<Seq<char>>::empty());
        }
    }
}

/// Whether `c` is white space.
pub fn is_blank_char(c: char) -> (r: bool)
    ensures
        r == is_blank(c),
{
    let u = c as u32;
    (0x9 <= u && u <= 0xD) || u == 0x20 || u == 0x85 || u == 0xA0 || u == 0x1680 || (0x2000 <= u
        && u <= 0x200A) || u == 0x2028 || u == 0x2029 || u == 0x202F || u == 0x205F || u == 0x3000
}

/// The characters of `s`, one per element.
pub(crate) fn chars_of(s: &str) -> (r: Vec<char>)
    ensures
        r@ == s@,
{
    let mut out: Vec<char> = Vec::new();
    for c in it: s.chars()
        invariant
            it.seq() == s@,
            out@ == it.seq().take(it.index() as int),
    {
        out.push(c);
    }
    out
}

} // verus!
