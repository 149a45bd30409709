use vstd::prelude::*;
use vstd::slice::slice_subrange;

use crate::utils::is_pre;
use crate::utils::not_byte_pred;
use crate::utils::not_nl_pred;
use crate::utils::run_len;
use crate::utils::starts_with;
use crate::utils::strip_rep;
use crate::utils::strip_repeats_len;
use crate::utils::take_while_not_byte;
use crate::utils::take_while_not_nl;
use crate::utils::take_while_ws;
use crate::utils::ws_pred;

verus! {

/// Bytes consumed by an early-style angle-bracket name: a run of opening
/// brackets, then everything up to the closing bracket, counted from the
/// end of the bracket run plus two.
pub open spec fn bnf_name_len(s: Seq<u8>) -> Option<int> {
    if s.len() == 0 || s[0] != 60 {
        None
    } else {
        let rest = strip_rep(s, seq![60u8]);
        let j = run_len(rest, not_byte_pred(62)) as int;
        if j == rest.len() {
            None
        } else {
            Some(j + 2)
        }
    }
}

/// Bytes consumed by an early-style quoted literal delimited by `q`: a
/// run of opening quotes, then everything up to the next quote, counted
/// from the end of the quote run plus two.
pub open spec fn bnf_quoted_len(s: Seq<u8>, q: u8) -> Option<int> {
    let k = run_len(s, crate::utils::eq_byte_pred(q)) as int;
    if k == 0 {
        None
    } else {
        let rest = s.skip(k);
        let j = run_len(rest, not_byte_pred(q)) as int;
        if j == rest.len() {
            None
        } else {
            Some(j + 2)
        }
    }
}

/// Reads an angle-bracket rule name from the front of `input`.
pub fn name<'b>(input: &'b [u8]) -> (r: Option<&'b [u8]>)
    ensures
        match r {
            Some(m) => bnf_name_len(input@) is Some && m@ == input@.take(
                bnf_name_len(input@).unwrap(),
            ),
            None => bnf_name_len(input@) is None,
        },
{
    if input.len() == 0 || input[0] != 60 {
        return None;
    }
    let lt: &[u8] = &[60u8];
    proof {
        assert(lt@ =~= seq![60u8]);
    }
    let k = strip_repeats_len(input, lt);
    let rest = slice_subrange(input, k, input.len());
    proof {
        assert(rest@ =~= input@.skip(k as int));
        assert(rest@ == strip_rep(input@, seq![60u8])) by {
            crate::utils::lemma_strip_rep_len(input@, seq![60u8]);
        }
    }
    proof {
        assert(is_pre(seq![60u8], input@)) by {
            assert(input@.subrange(0, 1) =~= seq![60u8]);
        }
        assert(strip_rep(input@, seq![60u8]) == strip_rep(input@.skip(1), seq![60u8]));
        crate::utils::lemma_strip_rep_len(input@.skip(1), seq![60u8]);
    }
    let j = take_while_not_byte(rest, 62);
    if j == rest.len() {
        return None;
    }
    Some(slice_subrange(input, 0, j + 2))
}

/// Reads a semicolon comment: from the semicolon to the end of the line.
pub fn comment<'b>(input: &'b [u8]) -> (r: Option<&'b [u8]>)
    ensures
        match r {
            Some(m) => input@.len() > 0 && input@[0] == 59 && m@ == input@.take(
                run_len(input@, not_nl_pred()) as int,
            ),
            None => input@.len() == 0 || input@[0] != 59,
        },
{
    if input.len() == 0 || input[0] != 59 {
        return None;
    }
    let n = take_while_not_nl(input);
    Some(slice_subrange(input, 0, n))
}

/// Reads a run of whitespace.
pub fn space<'b>(input: &'b [u8]) -> (r: Option<&'b [u8]>)
    ensures
        match r {
            Some(m) => run_len(input@, ws_pred()) > 0 && m@ == input@.take(
                run_len(input@, ws_pred()) as int,
            ),
            None => run_len(input@, ws_pred()) == 0,
        },
{
    let n = take_while_ws(input);
    if n == 0 {
        None
    } else {
        Some(slice_subrange(input, 0, n))
    }
}

/// Reads the early-style assignment arrow.
pub fn assign<'b>(input: &'b [u8]) -> (r: Option<&'b [u8]>)
    ensures
        match r {
            Some(m) => is_pre(seq![45u8, 62u8], input@) && m@ == input@.take(2),
            None => !is_pre(seq![45u8, 62u8], input@),
        },
{
    let arrow: &[u8] = &[45u8, 62u8];
    proof {
        assert(arrow@ =~= seq![45u8, 62u8]);
    }
    if starts_with(input, arrow) {
        Some(slice_subrange(input, 0, 2))
    } else {
        None
    }
}

/// Reads a double-quoted literal.
pub fn double_quoted<'b>(input: &'b [u8]) -> (r: Option<&'b [u8]>)
    ensures
        match r {
            Some(m) => bnf_quoted_len(input@, 34) is Some && m@ == input@.take(
                bnf_quoted_len(input@, 34).unwrap(),
            ),
            None => bnf_quoted_len(input@, 34) is None,
        },
{
    let k = crate::utils::take_while_byte(input, 34);
    if k == 0 {
        return None;
    }
    let rest = slice_subrange(input, k, input.len());
    proof {
        assert(rest@ =~= input@.skip(k as int));
    }
    let j = take_while_not_byte(rest, 34);
    if j == rest.len() {
        return None;
    }
    Some(slice_subrange(input, 0, j + 2))
}

/// Reads a single-quoted literal.
pub fn single_quoted<'b>(input: &'b [u8]) -> (r: Option<&'b [u8]>)
    ensures
        match r {
            Some(m) => bnf_quoted_len(input@, 39) is Some && m@ == input@.take(
                bnf_quoted_len(input@, 39).unwrap(),
            ),
            None => bnf_quoted_len(input@, 39) is None,
        },
{
    let k = crate::utils::take_while_byte(input, 39);
    if k == 0 {
        return None;
    }
    let rest = slice_subrange(input, k, input.len());
    proof {
        assert(rest@ =~= input@.skip(k as int));
    }
    let j = take_while_not_byte(rest, 39);
    if j == rest.len() {
        return None;
    }
    Some(slice_subrange(input, 0, j + 2))
}

/// Reads one rule piece: a quoted literal of either kind, or a name.
pub fn rule_piece<'b>(input: &'b [u8]) -> (r: Option<&'b [u8]>)
    ensures
        match r {
            Some(m) => if bnf_quoted_len(input@, 39) is Some {
                m@ == input@.take(bnf_quoted_len(input@, 39).unwrap())
            } else if bnf_quoted_len(input@, 34) is Some {
                m@ == input@.take(bnf_quoted_len(input@, 34).unwrap())
            } else {
                bnf_name_len(input@) is Some && m@ == input@.take(bnf_name_len(input@).unwrap())
            },
            None => bnf_quoted_len(input@, 39) is None && bnf_quoted_len(input@, 34) is None
                && bnf_name_len(input@) is None,
        },
{
    if let Some(single) = single_quoted(input) {
        return Some(single);
    }
    if let Some(double) = double_quoted(input) {
        return Some(double);
    }
    if let Some(ident) = name(input) {
        return Some(ident);
    }
    None
}

/// Drops the first `n` bytes, or everything when `input` is shorter.
pub fn skip_n<'b>(s: &'b [u8], n: usize) -> (r: &'b [u8])
    requires
        n >= 1,
    ensures
        r@ == s@.skip(
            if n <= s@.len() {
                n as int
            } else {
                s@.len() as int
            },
        ),
{
    if n >= s.len() {
        slice_subrange(s, s.len(), s.len())
    } else {
        slice_subrange(s, n, s.len())
    }
}

/// Reads the longest prefix whose bytes all satisfy `p`; nothing when
/// not even the first byte does.
pub fn start_match<'b, Pattern: Fn(u8) -> bool>(s: &'b [u8], p: Pattern) -> (r: Option<&'b [u8]>)
    requires
        forall|b: u8| call_requires(p, (b,)),
    ensures
        match r {
            Some(m) => 1 <= m@.len() <= s@.len() && m@ == s@.take(m@.len() as int) && (forall|
                j: int,
            |
                0 <= j < m@.len() ==> call_ensures(p, (s@[j],), true)) && (m@.len() == s@.len()
                || call_ensures(p, (s@[m@.len() as int],), false)),
            None => s@.len() == 0 || call_ensures(p, (s@[0],), false),
        },
{
    let mut i: usize = 0;
    loop
        invariant
            i <= s@.len(),
            forall|b: u8| call_requires(p, (b,)),
            forall|j: int| 0 <= j < i ==> call_ensures(p, (s@[j],), true),
        ensures
            i <= s@.len(),
            forall|j: int| 0 <= j < i ==> call_ensures(p, (s@[j],), true),
            i == s@.len() || call_ensures(p, (s@[i as int],), false),
        decreases s@.len() - i,
    {
        if i >= s.len() {
            break ;
        }
        if !p(s[i]) {
            break ;
        }
        i += 1;
    }
    if i == 0 {
        None
    } else {
        Some(slice_subrange(s, 0, i))
    }
}

/// What follows the leading repetitions of `start` at the front of
/// `line`, when `line` does begin with `start`.
pub fn skip<'b>(line: &'b [u8], start: &[u8]) -> (r: Option<&'b [u8]>)
    ensures
        match r {
            Some(rest) => is_pre(start@, line@) && rest@ == strip_rep(line@, start@),
            None => !is_pre(start@, line@),
        },
{
    if starts_with(line, start) {
        let n = strip_repeats_len(line, start);
        Some(slice_subrange(line, n, line.len()))
    } else {
        None
    }
}

/// Applies a parser to the front of `input` and also skips what it read:
/// the parsed front and the input after its leading repetitions.
pub fn parse_and_skip<'b, ParseFunc: Fn(&'b [u8]) -> Option<&'b [u8]>>(
    input: &'b [u8],
    parse: ParseFunc,
) -> (r: Option<(&'b [u8], &'b [u8])>)
    requires
        forall|x: &'b [u8]| call_requires(parse, (x,)),
    ensures
        match r {
            Some((parsed, rest)) => call_ensures(parse, (input,), Some(parsed)) && is_pre(
                parsed@,
                input@,
            ) && rest@ == strip_rep(input@, parsed@),
            None => exists|o: Option<&'b [u8]>|
                #[trigger] call_ensures(parse, (input,), o) && match o {
                    None => true,
                    Some(m) => !is_pre(m@, input@),
                },
        },
{
    let parsed = match parse(input) {
        Some(m) => m,
        None => {
            return None;
        },
    };
    let skipped = match skip(input, parsed) {
        Some(rest) => rest,
        None => {
            return None;
        },
    };
    Some((parsed, skipped))
}

} // verus!
