use vstd::prelude::*;
use vstd::string::StrSliceExecFns;

use crate::ast::{
    Args, ArgsV, Expr, ExprV, FnCall, FnCallV, Index, IndexV, Prefix, PrefixV, Suffix, SuffixV,
    Var, VarV, expr_view, fncall_view, lemma_exprs_view_index, lemma_suffixes_view_index,
    prefix_view, suffix_view, suffixes_view, var_view,
};
use crate::util::{string_eq_str, strings_view};

verus! {

// ---------------------------------------------------------------------------
// Stripping leading comment trivia from an identifier token.
//
// A token's raw text may carry the trivia that precedes it on earlier
// lines; the identifier itself is the trimmed last line of the text.
// ---------------------------------------------------------------------------

/// Holds for the whitespace characters that trimming removes.
pub open spec fn is_space(c: char) -> bool {
    c == ' ' || c == '\t' || c == '\n' || c == '\r' || c == '\u{000B}' || c == '\u{000C}'
}

/// The sequence without its leading whitespace.
pub open spec fn drop_leading_spaces(s: Seq<char>) -> Seq<char>
    decreases s.len(),
{
    if s.len() > 0 && is_space(s[0]) {
        drop_leading_spaces(s.drop_first())
    } else {
        s
    }
}

/// The sequence without its trailing whitespace.
pub open spec fn drop_trailing_spaces(s: Seq<char>) -> Seq<char>
    decreases s.len(),
{
    if s.len() > 0 && is_space(s.last()) {
        drop_trailing_spaces(s.drop_last())
    } else {
        s
    }
}

/// The sequence without leading and trailing whitespace.
pub open spec fn trimmed(s: Seq<char>) -> Seq<char> {
    drop_trailing_spaces(drop_leading_spaces(s))
}

/// The sequence without one trailing line break, if it ends in one.
pub open spec fn chop_trailing_newline(s: Seq<char>) -> Seq<char> {
    if s.len() > 0 && s.last() == '\n' {
        if s.len() >= 2 && s[s.len() - 2] == '\r' {
            s.take(s.len() - 2)
        } else {
            s.take(s.len() - 1)
        }
    } else {
        s
    }
}

/// The suffix of the sequence after its last line-break character.
pub open spec fn after_last_newline(s: Seq<char>) -> Seq<char>
    decreases s.len(),
{
    if s.len() == 0 {
        s
    } else if s.last() == '\n' {
        Seq::empty()
    } else {
        after_last_newline(s.drop_last()).push(s.last())
    }
}

/// The token text with its leading trivia stripped: the trimmed last line.
/// An empty text has no last line.
pub open spec fn strip_preceding_comments(s: Seq<char>) -> Option<Seq<char>> {
    if s.len() == 0 {
        None
    } else {
        Some(trimmed(after_last_newline(chop_trailing_newline(s))))
    }
}

proof fn lemma_after_last_newline_suffix(t: Seq<char>, start: int)
    requires
        0 <= start <= t.len(),
        start == 0 || t[start - 1] == '\n',
        forall|k: int| start <= k < t.len() ==> t[k] != '\n',
    ensures
        after_last_newline(t) == t.skip(start),
    decreases t.len(),
{
    if t.len() == 0 {
        assert(t.skip(0) =~= t);
    } else if start == t.len() {
        assert(t.last() == '\n');
        assert(t.skip(start) =~= Seq::<char>::empty());
    } else {
        assert(t.last() != '\n');
        lemma_after_last_newline_suffix(t.drop_last(), start);
        assert(t.drop_last().skip(start).push(t.last()) =~= t.skip(start));
    }
}

proof fn lemma_drop_leading_spaces_skip(s: Seq<char>, lo: int)
    requires
        0 <= lo <= s.len(),
        forall|k: int| 0 <= k < lo ==> is_space(#[trigger] s[k]),
        lo == s.len() || !is_space(s[lo]),
    ensures
        drop_leading_spaces(s) == s.skip(lo),
    decreases lo,
{
    if lo == 0 {
        assert(s.skip(0) =~= s);
    } else {
        assert(is_space(s[0]));
        assert(s.drop_first() == s.skip(1));
        lemma_drop_leading_spaces_skip(s.skip(1), lo - 1);
        assert(s.skip(1).skip(lo - 1) =~= s.skip(lo));
    }
}

proof fn lemma_drop_trailing_spaces_take(s: Seq<char>, hi: int)
    requires
        0 <= hi <= s.len(),
        forall|k: int| hi <= k < s.len() ==> is_space(#[trigger] s[k]),
        hi == 0 || !is_space(s[hi - 1]),
    ensures
        drop_trailing_spaces(s) == s.take(hi),
    decreases s.len(),
{
    if hi == s.len() {
        if s.len() > 0 {
            assert(!is_space(s.last()));
        }
        assert(s.take(hi) =~= s);
    } else {
        assert(is_space(s.last()));
        lemma_drop_trailing_spaces_take(s.drop_last(), hi);
        assert(s.drop_last().take(hi) =~= s.take(hi));
    }
}

/// Decides whether a character is whitespace that trimming removes.
pub fn is_space_char(c: char) -> (r: bool)
    ensures
        r == is_space(c),
{
    c == ' ' || c == '\t' || c == '\n' || c == '\r' || c == '\u{000B}' || c == '\u{000C}'
}

/// Strips leading comment trivia from a token's raw text: returns the
/// trimmed last line of the text, or nothing for an empty text.
#[verifier::rlimit(50)]
pub fn remove_preceding_comments(text: &String) -> (r: Option<String>)
    ensures
        match r {
            Some(res) => strip_preceding_comments(text@) == Some(res@),
            None => strip_preceding_comments(text@) is None,
        },
{
    let s: &str = text.as_str();
    let n = s.unicode_len();
    if n == 0 {
        return None;
    }
    // Ignore one trailing line break.
    let mut end: usize = n;
    if s.get_char(n - 1) == '\n' {
        if n >= 2 && s.get_char(n - 2) == '\r' {
            end = n - 2;
        } else {
            end = n - 1;
        }
    }
    let ghost t = chop_trailing_newline(text@);
    proof {
        assert(t =~= text@.take(end as int));
    }
    // Find the start of the last line.
    let mut start: usize = end;
    while start > 0 && s.get_char(start - 1) != '\n'
        invariant
            start <= end <= n,
            n == text@.len(),
            s@ == text@,
            forall|k: int| start <= k < end ==> text@[k] != '\n',
        decreases start,
    {
        start = start - 1;
    }
    proof {
        lemma_after_last_newline_suffix(t, start as int);
        assert(after_last_newline(t) =~= text@.subrange(start as int, end as int));
    }
    let ghost line = text@.subrange(start as int, end as int);
    // Trim the line.
    let mut lo: usize = start;
    while lo < end && is_space_char(s.get_char(lo))
        invariant
            start <= lo <= end <= n,
            n == text@.len(),
            s@ == text@,
            forall|k: int| start <= k < lo ==> is_space(#[trigger] text@[k]),
        decreases end - lo,
    {
        lo = lo + 1;
    }
    proof {
        lemma_drop_leading_spaces_skip(line, lo - start as int);
        assert(drop_leading_spaces(line) =~= text@.subrange(lo as int, end as int));
    }
    let mut hi: usize = end;
    while hi > lo && is_space_char(s.get_char(hi - 1))
        invariant
            lo <= hi <= end <= n,
            n == text@.len(),
            s@ == text@,
            forall|k: int| hi <= k < end ==> is_space(#[trigger] text@[k]),
        decreases hi,
    {
        hi = hi - 1;
    }
    proof {
        let dropped = text@.subrange(lo as int, end as int);
        lemma_drop_trailing_spaces_take(dropped, hi - lo as int);
        assert(drop_trailing_spaces(dropped) =~= text@.subrange(lo as int, hi as int));
    }
    let piece: &str = s.substring_char(lo, hi);
    let res: String = piece.to_owned();
    proof {
        assert(res@ =~= trimmed(after_last_newline(t)));
    }
    Some(res)
}

// ---------------------------------------------------------------------------
// Token-path extraction: the decomposed form of a require argument.
// ---------------------------------------------------------------------------

/// The names of a chain of suffixes, when every suffix is a dot-style
/// member access; any other suffix shape gives no path.
pub open spec fn suffix_names(ss: Seq<SuffixV>) -> Option<Seq<Seq<char>>>
    decreases ss.len(),
{
    if ss.len() == 0 {
        Some(Seq::empty())
    } else {
        match ss[0] {
            SuffixV::Index(IndexV::Dot(name)) => match suffix_names(ss.drop_first()) {
                Some(rest) => Some(seq![name] + rest),
                None => None,
            },
            _ => None,
        }
    }
}

/// The token path of a variable expression: a bare identifier is a
/// single-token path; a dotted chain headed by a bare name yields the head
/// and every dot name in order; any other shape gives no path.
pub open spec fn var_tokens(v: VarV) -> Option<Seq<Seq<char>>> {
    match v {
        VarV::Name(name) => Some(seq![name]),
        VarV::Expr { prefix, suffixes } => match prefix {
            PrefixV::Name(head) => match suffix_names(suffixes) {
                Some(names) => Some(seq![head] + names),
                None => None,
            },
            _ => None,
        },
    }
}

/// The token path of a require argument expression, when it is a
/// resolvable static path. Parenthesized wrapping is transparent; every
/// other shape gives no path.
pub open spec fn token_path(e: ExprV) -> Option<Seq<Seq<char>>>
    decreases e,
{
    match e {
        ExprV::Paren(inner) => token_path(*inner),
        ExprV::Var(v) => var_tokens(v),
        _ => None,
    }
}

/// Holds when a callee token names the require function once its leading
/// trivia is stripped.
pub open spec fn is_require_name(name: Seq<char>) -> bool {
    strip_preceding_comments(name) == Some("require"@)
}

/// Holds when a call has the require shape: a bare identifier callee
/// naming require, with exactly one suffix.
pub open spec fn is_require_call(c: FnCallV) -> bool {
    &&& c.prefix matches PrefixV::Name(name) && is_require_name(name)
    &&& c.suffixes.len() == 1
}

/// The token path of the first argument of a call, when the call's first
/// suffix is a parenthesized argument list with at least one argument.
pub open spec fn call_argument_path(c: FnCallV) -> Option<Seq<Seq<char>>> {
    if c.suffixes.len() == 0 {
        None
    } else {
        match c.suffixes[0] {
            SuffixV::Call(ArgsV::Parentheses(args)) => if args.len() >= 1 {
                token_path(args[0])
            } else {
                None
            },
            _ => None,
        }
    }
}

/// The token path required by a call: present exactly when the call has
/// the require shape and its first argument is a resolvable static path.
pub open spec fn require_arg(c: FnCallV) -> Option<Seq<Seq<char>>> {
    if is_require_call(c) {
        call_argument_path(c)
    } else {
        None
    }
}

/// Extracts the token path of one argument expression, or reports that
/// the expression is not a resolvable static path.
pub fn expression_to_string(e: &Expr) -> (r: Option<Vec<String>>)
    ensures
        match r {
            Some(tokens) => token_path(expr_view(*e)) == Some(strings_view(tokens@)),
            None => token_path(expr_view(*e)) is None,
        },
    decreases *e,
{
    match e {
        Expr::Paren(inner) => expression_to_string(inner),
        Expr::Var(var) => {
            match var {
                Var::Name(name) => {
                    let mut tokens: Vec<String> = Vec::new();
                    tokens.push(name.clone());
                    proof {
                        assert(strings_view(tokens@) =~= seq![name@]);
                    }
                    Some(tokens)
                },
                Var::Expr { prefix, suffixes } => {
                    match prefix {
                        Prefix::Name(head) => {
                            let ghost vv = var_view(*var);
                            let ghost sv = suffixes_view(suffixes@);
                            proof {
                                lemma_suffixes_view_index(suffixes@);
                            }
                            let mut tokens: Vec<String> = Vec::new();
                            tokens.push(head.clone());
                            proof {
                                assert(strings_view(tokens@) =~= seq![head@]);
                                assert(sv.skip(0) =~= sv);
                            }
                            let mut i: usize = 0;
                            while i < suffixes.len()
                                invariant
                                    i <= suffixes@.len(),
                                    sv == suffixes_view(suffixes@),
                                    sv.len() == suffixes@.len(),
                                    forall|j: int|
                                        0 <= j < suffixes@.len() ==> sv[j] == suffix_view(
                                            suffixes@[j],
                                        ),
                                    vv == var_view(*var),
                                    token_path(expr_view(*e)) == var_tokens(vv),
                                    match suffix_names(sv.skip(i as int)) {
                                        Some(rest) => var_tokens(vv) == Some(
                                            strings_view(tokens@) + rest,
                                        ),
                                        None => var_tokens(vv) is None,
                                    },
                                decreases suffixes@.len() - i,
                            {
                                let ghost restv = sv.skip(i as int);
                                proof {
                                    assert(restv[0] == sv[i as int]);
                                    assert(restv.drop_first() =~= sv.skip(i as int + 1));
                                }
                                match &suffixes[i] {
                                    Suffix::Index(Index::Dot(name)) => {
                                        tokens.push(name.clone());
                                        proof {
                                            let prev = tokens@.drop_last();
                                            assert(strings_view(tokens@) =~= strings_view(prev)
                                                + seq![name@]);
                                            if suffix_names(sv.skip(i as int + 1)) is Some {
                                                let rest = suffix_names(
                                                    sv.skip(i as int + 1),
                                                ).unwrap();
                                                assert(strings_view(prev) + (seq![name@] + rest)
                                                    =~= strings_view(tokens@) + rest);
                                            }
                                        }
                                    },
                                    _ => {
                                        return None;
                                    },
                                }
                                i = i + 1;
                            }
                            proof {
                                assert(sv.skip(i as int) =~= Seq::<SuffixV>::empty());
                                assert(strings_view(tokens@) + Seq::<Seq<char>>::empty()
                                    =~= strings_view(tokens@));
                            }
                            Some(tokens)
                        },
                        _ => None,
                    }
                },
            }
        },
        _ => None,
    }
}

/// Extracts the token path of a call's first argument, going through the
/// call's first suffix when it is a parenthesized argument list.
pub fn get_require_tokens(func: &FnCall) -> (r: Option<Vec<String>>)
    ensures
        match r {
            Some(tokens) => call_argument_path(fncall_view(*func)) == Some(
                strings_view(tokens@),
            ),
            None => call_argument_path(fncall_view(*func)) is None,
        },
{
    proof {
        lemma_suffixes_view_index(func.suffixes@);
    }
    if func.suffixes.len() == 0 {
        return None;
    }
    match &func.suffixes[0] {
        Suffix::Call(Args::Parentheses(args)) => {
            proof {
                lemma_exprs_view_index(args@);
            }
            if args.len() == 0 {
                None
            } else {
                expression_to_string(&args[0])
            }
        },
        _ => None,
    }
}

/// Tests a call for the require shape and extracts its argument's token
/// path: present exactly when the call is a require call whose first
/// argument is a resolvable static path.
pub fn get_require_argument(func: &FnCall) -> (r: Option<Vec<String>>)
    ensures
        match r {
            Some(tokens) => require_arg(fncall_view(*func)) == Some(strings_view(tokens@)),
            None => require_arg(fncall_view(*func)) is None,
        },
{
    match &func.prefix {
        Prefix::Name(raw) => {
            match remove_preceding_comments(raw) {
                Some(stripped) => {
                    if string_eq_str(&stripped, "require") && func.suffixes.len() == 1 {
                        get_require_tokens(func)
                    } else {
                        None
                    }
                },
                None => None,
            }
        },
        _ => None,
    }
}

} // verus!
