use vstd::prelude::*;
use vstd::slice::slice_subrange;

verus! {

/// True when `pre` is an initial segment of `s`.
pub open spec fn is_pre(pre: Seq<u8>, s: Seq<u8>) -> bool {
    pre.len() <= s.len() && pre == s.subrange(0, pre.len() as int)
}

/// Exact byte-wise equality of two slices.
pub fn bytes_eq(a: &[u8], b: &[u8]) -> (r: bool)
    ensures
        r == (a@ == b@),
{
    if a.len() != b.len() {
        proof {
            assert(a@.len() != b@.len());
        }
        return false;
    }
    let mut i: usize = 0;
    while i < a.len()
        invariant
            i <= a.len(),
            a.len() == b.len(),
            forall|j: int| 0 <= j < i ==> a@[j] == b@[j],
        decreases a.len() - i,
    {
        if a[i] != b[i] {
            proof {
                assert(a@[i as int] != b@[i as int]);
            }
            return false;
        }
        i += 1;
    }
    proof {
        assert(a@ =~= b@);
    }
    true
}

/// Whether `pre` is a prefix of `s`, byte for byte.
pub fn starts_with(s: &[u8], pre: &[u8]) -> (r: bool)
    ensures
        r == is_pre(pre@, s@),
{
    if pre.len() > s.len() {
        return false;
    }
    let head = slice_subrange(s, 0, pre.len());
    bytes_eq(head, pre)
}

/// A bounded preview of the front of `input`: its first `n + 1` bytes,
/// or all of it when it is shorter than that.
pub fn take_n<'a>(input: &'a [u8], n: usize) -> (r: &'a [u8])
    ensures
        r@ == input@.take(if n + 1 <= input@.len() {
            n + 1
        } else {
            input@.len() as int
        }),
{
    let k: usize = if n >= input.len() {
        input.len()
    } else {
        n + 1
    };
    slice_subrange(input, 0, k)
}

/// An ASCII whitespace byte: space, tab, line feed, form feed or carriage return.
pub open spec fn is_ws(b: u8) -> bool {
    b == 32 || b == 9 || b == 10 || b == 12 || b == 13
}

/// An ASCII letter.
pub open spec fn is_alpha(b: u8) -> bool {
    (97 <= b && b <= 122) || (65 <= b && b <= 90)
}

/// A byte allowed inside an angle-bracket identifier: a letter or an underscore.
pub open spec fn is_ident_byte(b: u8) -> bool {
    is_alpha(b) || b == 95
}

pub open spec fn ws_pred() -> spec_fn(u8) -> bool {
    |b: u8| is_ws(b)
}

pub open spec fn alpha_pred() -> spec_fn(u8) -> bool {
    |b: u8| is_alpha(b)
}

pub open spec fn ident_pred() -> spec_fn(u8) -> bool {
    |b: u8| is_ident_byte(b)
}

pub open spec fn eq_byte_pred(c: u8) -> spec_fn(u8) -> bool {
    |b: u8| b == c
}

pub open spec fn not_byte_pred(stop: u8) -> spec_fn(u8) -> bool {
    |b: u8| b != stop
}

/// Bytes other than line feed and carriage return.
pub open spec fn not_nl_pred() -> spec_fn(u8) -> bool {
    |b: u8| b != 10 && b != 13
}

/// Length of the longest prefix of `s` whose bytes all satisfy `p`.
pub open spec fn run_len(s: Seq<u8>, p: spec_fn(u8) -> bool) -> nat
    decreases s.len(),
{
    if s.len() == 0 || !p(s[0]) {
        0
    } else {
        1 + run_len(s.skip(1), p)
    }
}

/// `run_len` is the unique cut point: everything before it satisfies `p`,
/// and the byte at it (when there is one) does not.
pub proof fn lemma_run_len_is(s: Seq<u8>, p: spec_fn(u8) -> bool, i: int)
    requires
        0 <= i <= s.len(),
        forall|j: int| 0 <= j < i ==> p(s[j]),
        i < s.len() ==> !p(s[i]),
    ensures
        run_len(s, p) == i,
    decreases i,
{
    if i == 0 {
    } else {
        assert(p(s[0]));
        lemma_run_len_is(s.skip(1), p, i - 1);
    }
}

/// Everything strictly before the run length satisfies `p`, and the byte
/// at the run length (when inside the sequence) does not.
pub proof fn lemma_run_len_bytes(s: Seq<u8>, p: spec_fn(u8) -> bool)
    ensures
        run_len(s, p) <= s.len(),
        forall|j: int| 0 <= j < run_len(s, p) ==> p(s[j]),
        run_len(s, p) < s.len() ==> !p(s[run_len(s, p) as int]),
    decreases s.len(),
{
    if s.len() == 0 || !p(s[0]) {
    } else {
        lemma_run_len_bytes(s.skip(1), p);
        assert forall|j: int| 0 <= j < run_len(s, p) implies p(s[j]) by {
            if j > 0 {
                assert(p(s.skip(1)[j - 1]));
            }
        }
    }
}

/// Length of the longest prefix of `s` made of whitespace bytes.
pub fn take_while_ws(s: &[u8]) -> (n: usize)
    ensures
        n == run_len(s@, ws_pred()),
        n <= s@.len(),
{
    let mut i: usize = 0;
    while i < s.len() && (s[i] == 32 || s[i] == 9 || s[i] == 10 || s[i] == 12 || s[i] == 13)
        invariant
            i <= s.len(),
            forall|j: int| 0 <= j < i ==> ws_pred()(s@[j]),
        decreases s.len() - i,
    {
        i += 1;
    }
    proof {
        lemma_run_len_is(s@, ws_pred(), i as int);
    }
    i
}

/// Length of the longest prefix of `s` made of ASCII letters.
pub fn take_while_alpha(s: &[u8]) -> (n: usize)
    ensures
        n == run_len(s@, alpha_pred()),
        n <= s@.len(),
{
    let mut i: usize = 0;
    while i < s.len() && ((97 <= s[i] && s[i] <= 122) || (65 <= s[i] && s[i] <= 90))
        invariant
            i <= s.len(),
            forall|j: int| 0 <= j < i ==> alpha_pred()(s@[j]),
        decreases s.len() - i,
    {
        i += 1;
    }
    proof {
        lemma_run_len_is(s@, alpha_pred(), i as int);
    }
    i
}

/// Length of the longest prefix of `s` made of identifier bytes.
pub fn take_while_ident(s: &[u8]) -> (n: usize)
    ensures
        n == run_len(s@, ident_pred()),
        n <= s@.len(),
{
    let mut i: usize = 0;
    while i < s.len() && ((97 <= s[i] && s[i] <= 122) || (65 <= s[i] && s[i] <= 90) || s[i] == 95)
        invariant
            i <= s.len(),
            forall|j: int| 0 <= j < i ==> ident_pred()(s@[j]),
        decreases s.len() - i,
    {
        i += 1;
    }
    proof {
        lemma_run_len_is(s@, ident_pred(), i as int);
    }
    i
}

/// Length of the longest prefix of `s` made of copies of the byte `c`.
pub fn take_while_byte(s: &[u8], c: u8) -> (n: usize)
    ensures
        n == run_len(s@, eq_byte_pred(c)),
        n <= s@.len(),
{
    let mut i: usize = 0;
    while i < s.len() && s[i] == c
        invariant
            i <= s.len(),
            forall|j: int| 0 <= j < i ==> eq_byte_pred(c)(s@[j]),
        decreases s.len() - i,
    {
        i += 1;
    }
    proof {
        lemma_run_len_is(s@, eq_byte_pred(c), i as int);
    }
    i
}

/// Length of the longest prefix of `s` free of the byte `stop`.
pub fn take_while_not_byte(s: &[u8], stop: u8) -> (n: usize)
    ensures
        n == run_len(s@, not_byte_pred(stop)),
        n <= s@.len(),
{
    let mut i: usize = 0;
    while i < s.len() && s[i] != stop
        invariant
            i <= s.len(),
            forall|j: int| 0 <= j < i ==> not_byte_pred(stop)(s@[j]),
        decreases s.len() - i,
    {
        i += 1;
    }
    proof {
        lemma_run_len_is(s@, not_byte_pred(stop), i as int);
    }
    i
}

/// Length of the longest prefix of `s` free of line breaks.
pub fn take_while_not_nl(s: &[u8]) -> (n: usize)
    ensures
        n == run_len(s@, not_nl_pred()),
        n <= s@.len(),
{
    let mut i: usize = 0;
    while i < s.len() && s[i] != 10 && s[i] != 13
        invariant
            i <= s.len(),
            forall|j: int| 0 <= j < i ==> not_nl_pred()(s@[j]),
        decreases s.len() - i,
    {
        i += 1;
    }
    proof {
        lemma_run_len_is(s@, not_nl_pred(), i as int);
    }
    i
}

/// Length of the longest suffix of `s` made of whitespace bytes.
pub open spec fn trail_ws_run(s: Seq<u8>) -> nat
    decreases s.len(),
{
    if s.len() == 0 || !is_ws(s.last()) {
        0
    } else {
        1 + trail_ws_run(s.drop_last())
    }
}

/// `trail_ws_run` is the unique cut point from the right: everything after
/// it is whitespace, and the byte just before it (when there is one) is not.
pub proof fn lemma_trail_ws_run_is(s: Seq<u8>, i: int)
    requires
        0 <= i <= s.len(),
        forall|j: int| s.len() - i <= j < s.len() ==> is_ws(s[j]),
        i < s.len() ==> !is_ws(s[s.len() - i - 1]),
    ensures
        trail_ws_run(s) == i,
    decreases i,
{
    if i == 0 {
    } else {
        assert(is_ws(s.last()));
        lemma_trail_ws_run_is(s.drop_last(), i - 1);
    }
}

/// Length of the longest whitespace suffix of `s`.
pub fn take_while_ws_end(s: &[u8]) -> (n: usize)
    ensures
        n == trail_ws_run(s@),
        n <= s@.len(),
{
    let mut i: usize = s.len();
    while i > 0 && (s[i - 1] == 32 || s[i - 1] == 9 || s[i - 1] == 10 || s[i - 1] == 12 || s[i - 1]
        == 13)
        invariant
            i <= s.len(),
            forall|j: int| i <= j < s@.len() ==> is_ws(s@[j]),
        decreases i,
    {
        i -= 1;
    }
    proof {
        lemma_trail_ws_run_is(s@, s@.len() - i);
    }
    s.len() - i
}

/// `s` with leading and trailing whitespace removed.
pub open spec fn trim_ws(x: Seq<u8>) -> Seq<u8> {
    let y = x.skip(run_len(x, ws_pred()) as int);
    y.take(y.len() - trail_ws_run(y))
}

/// Drops leading and trailing whitespace from `x`.
pub fn trim_ws_slice<'a>(x: &'a [u8]) -> (r: &'a [u8])
    ensures
        r@ == trim_ws(x@),
{
    let a = take_while_ws(x);
    let y = slice_subrange(x, a, x.len());
    let b = take_while_ws_end(y);
    slice_subrange(y, 0, y.len() - b)
}

/// What is left of `s` after removing every whole copy of `pat` standing
/// at its front, one after the other.
pub open spec fn strip_rep(s: Seq<u8>, pat: Seq<u8>) -> Seq<u8>
    decreases s.len(),
{
    if pat.len() == 0 || !is_pre(pat, s) {
        s
    } else {
        strip_rep(s.skip(pat.len() as int), pat)
    }
}

/// Stripping leading repetitions never lengthens a sequence.
pub proof fn lemma_strip_rep_len(s: Seq<u8>, pat: Seq<u8>)
    ensures
        strip_rep(s, pat).len() <= s.len(),
    decreases s.len(),
{
    if pat.len() > 0 && is_pre(pat, s) {
        lemma_strip_rep_len(s.skip(pat.len() as int), pat);
    }
}

/// Bytes taken up by the leading repetitions of `pat` at the front of `s`.
pub fn strip_repeats_len(s: &[u8], pat: &[u8]) -> (n: usize)
    ensures
        n <= s@.len(),
        s@.skip(n as int) == strip_rep(s@, pat@),
{
    if pat.len() == 0 {
        proof {
            assert(s@.skip(0) =~= s@);
        }
        return 0;
    }
    let mut i: usize = 0;
    proof {
        assert(s@.skip(0) =~= s@);
    }
    loop
        invariant
            pat@.len() > 0,
            i <= s@.len(),
            strip_rep(s@, pat@) == strip_rep(s@.skip(i as int), pat@),
        decreases s@.len() - i,
    {
        let rest = vstd::slice::slice_subrange(s, i, s.len());
        if starts_with(rest, pat) {
            proof {
                assert(rest@.skip(pat@.len() as int) =~= s@.skip(i + pat@.len()));
            }
            i += pat.len();
        } else {
            proof {
                assert(strip_rep(s@.skip(i as int), pat@) == s@.skip(i as int));
            }
            return i;
        }
    }
}

/// The front of `input` when it begins with `matcher`, and nothing otherwise.
pub fn match_start<'a>(input: &'a [u8], matcher: &[u8]) -> (r: Option<&'a [u8]>)
    ensures
        match r {
            Some(p) => is_pre(matcher@, input@) && p@ == matcher@,
            None => !is_pre(matcher@, input@),
        },
{
    if starts_with(input, matcher) {
        Some(slice_subrange(input, 0, matcher.len()))
    } else {
        None
    }
}

} // verus!
