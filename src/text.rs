//! The textual layer of the format: decimal numerals, separators, comments and tokens.

use vstd::prelude::*;

verus! {

/// An ASCII decimal digit, `0` to `9`.
pub open spec fn is_digit(b: u8) -> bool {
    0x30 <= b <= 0x39
}

/// A separator byte: space, tab, carriage return or newline.
pub open spec fn is_space(b: u8) -> bool {
    b == 0x20 || b == 0x09 || b == 0x0a || b == 0x0d
}

/// A byte that ends a token: a separator, or `#`, which opens a comment.
pub open spec fn is_delimiter(b: u8) -> bool {
    is_space(b) || b == 0x23
}

/// The decimal numeral of `n`, without leading zeros.
pub open spec fn decimal(n: nat) -> Seq<u8>
    decreases n,
{
    if n < 10 {
        seq![(0x30 + n) as u8]
    } else {
        decimal(n / 10).push((0x30 + n % 10) as u8)
    }
}

/// A non-empty run of decimal digits.
pub open spec fn is_number(t: Seq<u8>) -> bool {
    t.len() > 0 && forall|i: int| 0 <= i < t.len() ==> is_digit(#[trigger] t[i])
}

/// The value of a run of decimal digits.
pub open spec fn value(t: Seq<u8>) -> nat
    decreases t.len(),
{
    if t.len() == 0 {
        0
    } else {
        value(t.drop_last()) * 10 + (t.last() - 0x30) as nat
    }
}

/// Where the next token starts at or after `i`: separators and comments (from `#` to the end
/// of the line) are passed over. `in_comment` says whether `i` lies inside a comment.
/// The length of `s` where no token follows.
pub open spec fn skip_from(s: Seq<u8>, i: nat, in_comment: bool) -> nat
    decreases s.len() - i,
{
    if i >= s.len() {
        s.len()
    } else if in_comment {
        skip_from(s, i + 1, s[i as int] != 0x0a)
    } else if is_space(s[i as int]) {
        skip_from(s, i + 1, false)
    } else if s[i as int] == 0x23 {
        skip_from(s, i + 1, true)
    } else {
        i
    }
}

/// Where the token that starts at `i` ends: at the first delimiter or at the end of `s`.
pub open spec fn token_end(s: Seq<u8>, i: nat) -> nat
    decreases s.len() - i,
{
    if i >= s.len() || is_delimiter(s[i as int]) {
        i
    } else {
        token_end(s, i + 1)
    }
}

/// The tokens of `s` from position `i` on, in order.
pub open spec fn tokens_from(s: Seq<u8>, i: nat) -> Seq<Seq<u8>>
    decreases s.len() - i,
    via tokens_from_decreases
{
    let j = skip_from(s, i, false);
    if j >= s.len() {
        Seq::empty()
    } else {
        let e = token_end(s, j);
        seq![s.subrange(j as int, e as int)] + tokens_from(s, e)
    }
}

#[via_fn]
proof fn tokens_from_decreases(s: Seq<u8>, i: nat) {
    if i <= s.len() {
        lemma_skip_from_bounds(s, i, false);
        let j = skip_from(s, i, false);
        if j < s.len() {
            lemma_token_end_bounds(s, j);
        }
    }
}

proof fn lemma_skip_from_bounds(s: Seq<u8>, i: nat, in_comment: bool)
    requires
        i <= s.len(),
    ensures
        i <= skip_from(s, i, in_comment) <= s.len(),
        skip_from(s, i, in_comment) < s.len() ==> !is_delimiter(
            s[skip_from(s, i, in_comment) as int],
        ),
    decreases s.len() - i,
{
    if i < s.len() {
        if in_comment {
            lemma_skip_from_bounds(s, i + 1, s[i as int] != 0x0a);
        } else if is_space(s[i as int]) {
            lemma_skip_from_bounds(s, i + 1, false);
        } else if s[i as int] == 0x23 {
            lemma_skip_from_bounds(s, i + 1, true);
        }
    }
}

proof fn lemma_token_end_bounds(s: Seq<u8>, i: nat)
    requires
        i <= s.len(),
    ensures
        i <= token_end(s, i) <= s.len(),
        i < s.len() && !is_delimiter(s[i as int]) ==> i < token_end(s, i),
        token_end(s, i) < s.len() ==> is_delimiter(s[token_end(s, i) as int]),
        forall|k: int| i <= k < token_end(s, i) ==> !is_delimiter(#[trigger] s[k]),
    decreases s.len() - i,
{
    if i < s.len() && !is_delimiter(s[i as int]) {
        lemma_token_end_bounds(s, i + 1);
    }
}

/// One step of `tokens_from`: the first token, if any, and where the rest begins.
pub proof fn lemma_tokens_step(s: Seq<u8>, i: nat)
    requires
        i <= s.len(),
    ensures
        skip_from(s, i, false) >= s.len() ==> tokens_from(s, i).len() == 0,
        skip_from(s, i, false) < s.len() ==> {
            let j = skip_from(s, i, false);
            let e = token_end(s, j);
            &&& i <= j < e <= s.len()
            &&& tokens_from(s, i).len() > 0
            &&& tokens_from(s, i)[0] == s.subrange(j as int, e as int)
            &&& tokens_from(s, i).drop_first() == tokens_from(s, e)
        },
{
    lemma_skip_from_bounds(s, i, false);
    let j = skip_from(s, i, false);
    if j < s.len() {
        lemma_token_end_bounds(s, j);
        let e = token_end(s, j);
        assert(tokens_from(s, i).drop_first() =~= tokens_from(s, e));
    }
}

/// The numeral of `n` is a run of digits whose value is `n`.
pub proof fn lemma_decimal_value(n: nat)
    ensures
        is_number(decimal(n)),
        value(decimal(n)) == n,
    decreases n,
{
    if n >= 10 {
        lemma_decimal_value(n / 10);
        let d = decimal(n);
        assert(d.drop_last() =~= decimal(n / 10));
        assert forall|i: int| 0 <= i < d.len() implies is_digit(#[trigger] d[i]) by {
            if i < d.len() - 1 {
                assert(d[i] == decimal(n / 10)[i]);
            }
        }
        assert(d.last() == (0x30 + n % 10) as u8);
        assert(value(d) == (n / 10) * 10 + n % 10);
    } else {
        assert(decimal(n).drop_last() =~= Seq::<u8>::empty());
        assert(value(decimal(n)) == value(Seq::<u8>::empty()) * 10 + n);
    }
}

/// A possible token: a non-empty run of bytes none of which is a delimiter.
pub open spec fn is_token(t: Seq<u8>) -> bool {
    t.len() > 0 && forall|i: int| 0 <= i < t.len() ==> !is_delimiter(#[trigger] t[i])
}

/// A numeral is a possible token.
pub proof fn lemma_number_is_token(t: Seq<u8>)
    requires
        is_number(t),
    ensures
        is_token(t),
{
    assert forall|i: int| 0 <= i < t.len() implies !is_delimiter(#[trigger] t[i]) by {
        assert(is_digit(t[i]));
    }
}

/// Extending a run of digits never lowers its value.
proof fn lemma_value_prefix(t: Seq<u8>, k: int)
    requires
        is_number(t),
        0 < k <= t.len(),
    ensures
        value(t.subrange(0, k)) <= value(t),
    decreases t.len(),
{
    if k < t.len() {
        let u = t.drop_last();
        assert(u.subrange(0, k) =~= t.subrange(0, k));
        if u.len() > 0 {
            assert forall|i: int| 0 <= i < u.len() implies is_digit(#[trigger] u[i]) by {
                assert(u[i] == t[i]);
            }
            lemma_value_prefix(u, k);
        }
    } else {
        assert(t.subrange(0, k) =~= t);
    }
}

/// `u` is the tokens `ts`, in order, each followed by exactly one separator byte.
pub open spec fn is_spaced(u: Seq<u8>, ts: Seq<Seq<u8>>) -> bool
    decreases ts.len(),
{
    if ts.len() == 0 {
        u.len() == 0
    } else {
        let l = ts[0].len() as int;
        &&& u.len() > l
        &&& u.subrange(0, l) == ts[0]
        &&& is_space(u[l])
        &&& is_spaced(u.subrange(l + 1, u.len() as int), ts.drop_first())
    }
}

/// A single token followed by a separator.
pub proof fn lemma_spaced_single(t: Seq<u8>, b: u8)
    requires
        is_space(b),
    ensures
        is_spaced(t + seq![b], seq![t]),
{
    let u = t + seq![b];
    assert(u.subrange(0, t.len() as int) =~= t);
    assert(u.subrange(t.len() as int + 1, u.len() as int) =~= Seq::<u8>::empty());
    assert(seq![t].drop_first() =~= Seq::<Seq<u8>>::empty());
    assert(is_spaced(Seq::<u8>::empty(), Seq::<Seq<u8>>::empty()));
    assert(seq![t][0] == t);
}

/// Spaced texts concatenate into the spaced text of the concatenated tokens.
pub proof fn lemma_spaced_concat(u1: Seq<u8>, t1: Seq<Seq<u8>>, u2: Seq<u8>, t2: Seq<Seq<u8>>)
    requires
        is_spaced(u1, t1),
        is_spaced(u2, t2),
    ensures
        is_spaced(u1 + u2, t1 + t2),
    decreases t1.len(),
{
    if t1.len() == 0 {
        assert(u1 + u2 =~= u2);
        assert(t1 + t2 =~= t2);
    } else {
        let l = t1[0].len() as int;
        let u = u1 + u2;
        let t = t1 + t2;
        lemma_spaced_concat(u1.subrange(l + 1, u1.len() as int), t1.drop_first(), u2, t2);
        assert(t[0] == t1[0]);
        assert(u.subrange(0, l) =~= u1.subrange(0, l));
        assert(u[l] == u1[l]);
        assert(u.subrange(l + 1, u.len() as int) =~= u1.subrange(l + 1, u1.len() as int) + u2);
        assert(t.drop_first() =~= t1.drop_first() + t2);
    }
}

proof fn lemma_token_end_at(s: Seq<u8>, i: nat, l: nat)
    requires
        i + l < s.len(),
        forall|k: int| i <= k < i + l ==> !is_delimiter(#[trigger] s[k]),
        is_delimiter(s[(i + l) as int]),
    ensures
        token_end(s, i) == i + l,
    decreases l,
{
    if l > 0 {
        lemma_token_end_at(s, i + 1, (l - 1) as nat);
    }
}

/// A separator at `e` does not change what tokens follow.
pub proof fn lemma_tokens_skip_space(s: Seq<u8>, e: nat)
    requires
        e < s.len(),
        is_space(s[e as int]),
    ensures
        tokens_from(s, e) == tokens_from(s, e + 1),
{
    assert(skip_from(s, e, false) == skip_from(s, e + 1, false));
}

/// The tokens of a spaced text of numerals are those numerals.
pub proof fn lemma_tokens_of_spaced(s: Seq<u8>, i: nat, ts: Seq<Seq<u8>>)
    requires
        i <= s.len(),
        is_spaced(s.subrange(i as int, s.len() as int), ts),
        forall|k: int| 0 <= k < ts.len() ==> is_token(#[trigger] ts[k]),
    ensures
        tokens_from(s, i) == ts,
    decreases ts.len(),
{
    let u = s.subrange(i as int, s.len() as int);
    if ts.len() == 0 {
        assert(i == s.len());
        assert(tokens_from(s, i) =~= ts);
    } else {
        let t = ts[0];
        let l = t.len();
        assert(is_token(t));
        assert(u.subrange(0, l as int)[0] == t[0]);
        assert(!is_delimiter(t[0]));
        assert(s[i as int] == u[0]);
        assert(skip_from(s, i, false) == i);
        assert forall|k: int| i <= k < i + l implies !is_delimiter(#[trigger] s[k]) by {
            assert(s[k] == u.subrange(0, l as int)[k - i]);
            assert(!is_delimiter(t[k - i]));
        }
        assert(s[(i + l) as int] == u[l as int]);
        lemma_token_end_at(s, i, l);
        assert(s.subrange(i as int, (i + l) as int) =~= t);
        lemma_tokens_skip_space(s, i + l);
        assert(s.subrange((i + l + 1) as int, s.len() as int) =~= u.subrange(
            l as int + 1,
            u.len() as int,
        ));
        assert forall|k: int| 0 <= k < ts.drop_first().len() implies is_token(
            #[trigger] ts.drop_first()[k],
        ) by {
            assert(ts.drop_first()[k] == ts[k + 1]);
        }
        lemma_tokens_of_spaced(s, i + l + 1, ts.drop_first());
        assert(tokens_from(s, i) =~= seq![t] + ts.drop_first());
        assert(seq![t] + ts.drop_first() =~= ts);
    }
}

/// A comment: `#`, then bytes other than newline, then a newline.
pub open spec fn is_comment(c: Seq<u8>) -> bool {
    &&& c.len() >= 2
    &&& c[0] == 0x23
    &&& c.last() == 0x0a
    &&& forall|k: int| 0 < k < c.len() - 1 ==> #[trigger] c[k] != 0x0a
}

/// `u` is the tokens `ts`, in order, each followed by the comment of the same index in `cs`.
pub open spec fn is_commented(u: Seq<u8>, ts: Seq<Seq<u8>>, cs: Seq<Seq<u8>>) -> bool
    decreases ts.len(),
{
    if ts.len() == 0 {
        u.len() == 0
    } else {
        let l = ts[0].len() as int;
        let e = l + cs[0].len();
        &&& cs.len() > 0
        &&& u.len() >= e
        &&& u.subrange(0, l) == ts[0]
        &&& u.subrange(l, e) == cs[0]
        &&& is_comment(cs[0])
        &&& is_commented(u.subrange(e, u.len() as int), ts.drop_first(), cs.drop_first())
    }
}

proof fn lemma_skip_comment_body(s: Seq<u8>, k: nat, end: nat)
    requires
        k < end <= s.len(),
        forall|p: int| k <= p < end - 1 ==> #[trigger] s[p] != 0x0a,
        s[end - 1] == 0x0a,
    ensures
        skip_from(s, k, true) == skip_from(s, end, false),
    decreases end - k,
{
    if k + 1 < end {
        lemma_skip_comment_body(s, k + 1, end);
    }
}

/// A comment at `i` does not change what tokens follow.
pub proof fn lemma_tokens_skip_comment(s: Seq<u8>, i: nat, c: Seq<u8>)
    requires
        i + c.len() <= s.len(),
        s.subrange(i as int, (i + c.len()) as int) == c,
        is_comment(c),
    ensures
        tokens_from(s, i) == tokens_from(s, i + c.len()),
{
    let end = i + c.len();
    assert(s[i as int] == c[0]);
    assert forall|p: int| i + 1 <= p < end - 1 implies #[trigger] s[p] != 0x0a by {
        assert(s[p] == c[p - i]);
    }
    assert(s[end - 1] == c[c.len() - 1]);
    lemma_skip_comment_body(s, i + 1, end);
    assert(skip_from(s, i, false) == skip_from(s, end, false));
}

/// The tokens of a text where a comment follows every token are those tokens.
pub proof fn lemma_tokens_of_commented(s: Seq<u8>, i: nat, ts: Seq<Seq<u8>>, cs: Seq<Seq<u8>>)
    requires
        i <= s.len(),
        is_commented(s.subrange(i as int, s.len() as int), ts, cs),
        forall|k: int| 0 <= k < ts.len() ==> is_token(#[trigger] ts[k]),
    ensures
        tokens_from(s, i) == ts,
    decreases ts.len(),
{
    let u = s.subrange(i as int, s.len() as int);
    if ts.len() == 0 {
        assert(i == s.len());
        assert(tokens_from(s, i) =~= ts);
    } else {
        let t = ts[0];
        let l = t.len();
        let c = cs[0];
        let e = l + c.len();
        assert(is_token(t));
        assert(u.subrange(0, l as int)[0] == t[0]);
        assert(s[i as int] == u[0]);
        assert(skip_from(s, i, false) == i);
        assert forall|k: int| i <= k < i + l implies !is_delimiter(#[trigger] s[k]) by {
            assert(s[k] == u.subrange(0, l as int)[k - i]);
            assert(!is_delimiter(t[k - i]));
        }
        assert(s[(i + l) as int] == u.subrange(l as int, e as int)[0]);
        lemma_token_end_at(s, i, l);
        assert(s.subrange(i as int, (i + l) as int) =~= t);
        assert(s.subrange((i + l) as int, (i + e) as int) =~= c);
        lemma_tokens_skip_comment(s, i + l, c);
        assert(s.subrange((i + e) as int, s.len() as int) =~= u.subrange(
            e as int,
            u.len() as int,
        ));
        assert forall|k: int| 0 <= k < ts.drop_first().len() implies is_token(
            #[trigger] ts.drop_first()[k],
        ) by {
            assert(ts.drop_first()[k] == ts[k + 1]);
        }
        lemma_tokens_of_commented(s, i + e, ts.drop_first(), cs.drop_first());
        assert(tokens_from(s, i) =~= seq![t] + ts.drop_first());
        assert(seq![t] + ts.drop_first() =~= ts);
    }
}

/// Appends the decimal numeral of `n` to `out`.
pub fn push_decimal(out: &mut Vec<u8>, n: usize)
    ensures
        final(out)@ == old(out)@ + decimal(n as nat),
    decreases n,
{
    if n >= 10 {
        push_decimal(out, n / 10);
    }
    let d: u8 = (n % 10) as u8;
    out.push(0x30u8 + d);
    proof {
        if n >= 10 {
            assert(decimal(n as nat) == decimal((n / 10) as nat).push((0x30 + n % 10) as u8));
        }
        assert(out@ =~= old(out)@ + decimal(n as nat));
    }
}

/// Where the next token starts at or after `pos`; the length of `s` where none follows.
pub fn skip_separators(s: &[u8], pos: usize) -> (r: usize)
    requires
        pos <= s@.len(),
    ensures
        r == skip_from(s@, pos as nat, false),
{
    let mut i: usize = pos;
    let mut in_comment: bool = false;
    while i < s.len()
        invariant
            pos <= i <= s@.len(),
            skip_from(s@, i as nat, in_comment) == skip_from(s@, pos as nat, false),
        decreases s@.len() - i,
    {
        let b: u8 = s[i];
        if in_comment {
            in_comment = b != 0x0a;
        } else if b == 0x20 || b == 0x09 || b == 0x0a || b == 0x0d {
        } else if b == 0x23 {
            in_comment = true;
        } else {
            return i;
        }
        i = i + 1;
    }
    i
}

/// Where the token that starts at `start` ends.
pub fn find_token_end(s: &[u8], start: usize) -> (r: usize)
    requires
        start <= s@.len(),
    ensures
        r == token_end(s@, start as nat),
{
    let mut i: usize = start;
    while i < s.len()
        invariant
            start <= i <= s@.len(),
            token_end(s@, i as nat) == token_end(s@, start as nat),
        decreases s@.len() - i,
    {
        let b: u8 = s[i];
        if b == 0x20 || b == 0x09 || b == 0x0a || b == 0x0d || b == 0x23 {
            return i;
        }
        i = i + 1;
    }
    i
}

/// Reads `s[start..end]` as a decimal numeral no greater than `limit`; `None` where it is not
/// a run of digits or its value exceeds `limit`.
pub fn parse_decimal(s: &[u8], start: usize, end: usize, limit: usize) -> (r: Option<usize>)
    requires
        start <= end <= s@.len(),
    ensures
        r == (if is_number(s@.subrange(start as int, end as int)) && value(
            s@.subrange(start as int, end as int),
        ) <= limit {
            Some(value(s@.subrange(start as int, end as int)) as usize)
        } else {
            None::<usize>
        }),
{
    let ghost t = s@.subrange(start as int, end as int);
    if start == end {
        return None;
    }
    let mut v: usize = 0;
    let mut i: usize = start;
    while i < end
        invariant
            start <= i <= end <= s@.len(),
            t == s@.subrange(start as int, end as int),
            v as nat == value(s@.subrange(start as int, i as int)),
            v <= limit,
            forall|k: int| start <= k < i ==> is_digit(#[trigger] s@[k]),
        decreases end - i,
    {
        let b: u8 = s[i];
        let ghost p = s@.subrange(start as int, i as int + 1);
        proof {
            assert(p.drop_last() =~= s@.subrange(start as int, i as int));
        }
        if b < 0x30 || b > 0x39 {
            proof {
                assert(t[i - start] == b);
            }
            return None;
        }
        let d: usize = (b - 0x30) as usize;
        if v > limit / 10 || d > limit - v * 10 {
            proof {
                assert(value(p) == v * 10 + d);
                assert(value(p) > limit) by (nonlinear_arith)
                    requires
                        value(p) == v * 10 + d,
                        v > limit / 10 || d > limit - v * 10,
                        d <= 9,
                ;
                if is_number(t) {
                    assert(t.subrange(0, i - start + 1) =~= p);
                    lemma_value_prefix(t, i - start + 1);
                }
            }
            return None;
        }
        v = v * 10 + d;
        i = i + 1;
    }
    proof {
        assert(s@.subrange(start as int, i as int) =~= t);
        assert forall|k: int| 0 <= k < t.len() implies is_digit(#[trigger] t[k]) by {
            assert(t[k] == s@[start + k]);
        }
    }
    Some(v)
}

} // verus!
