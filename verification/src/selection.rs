//! Selective deletion: turning the text a user types into positions of
//! the current link list, and resolving those positions into the links to
//! delete.
//!
//! The text names items by 1-based numbers separated by single spaces.
//! Positions are always resolved against a freshly fetched list, never
//! against the list the numbers were chosen from; a number that no longer
//! names an item is reported, not skipped.

use vstd::prelude::*;
use vstd::string::StrSliceExecFns;
use crate::checker::urls_view;

verus! {

/// Why a selection could not be resolved: the text is not a list of
/// positive numbers, or some numbered item no longer exists.
#[derive(Clone, Copy, Debug, PartialEq, Eq, Structural)]
pub enum SelectionError {
    InvalidInput,
    MissingItems,
}

/// The character is a decimal digit.
pub open spec fn is_digit(c: char) -> bool {
    48 <= c as int <= 57
}

/// The numeric value of a decimal digit.
pub open spec fn digit_val(c: char) -> int {
    c as int - 48
}

/// The value of a string of decimal digits, most significant first.
pub open spec fn digits_value(s: Seq<char>) -> int
    decreases s.len(),
{
    if s.len() == 0 {
        0
    } else {
        digits_value(s.drop_last()) * 10 + digit_val(s.last())
    }
}

/// Every character is a decimal digit.
pub open spec fn all_digits(s: Seq<char>) -> bool {
    forall|i: int| 0 <= i < s.len() ==> is_digit(#[trigger] s[i])
}

/// The value a token denotes: an optional sign, then at least one digit,
/// within the 32-bit signed range; anything else denotes nothing.
pub open spec fn token_value(t: Seq<char>) -> Option<int> {
    if t.len() > 0 && (t[0] == '+' || t[0] == '-') {
        let ds = t.subrange(1, t.len() as int);
        if ds.len() > 0 && all_digits(ds) {
            if t[0] == '-' {
                if digits_value(ds) <= 0x8000_0000 {
                    Some(-digits_value(ds))
                } else {
                    None
                }
            } else {
                if digits_value(ds) <= 0x7fff_ffff {
                    Some(digits_value(ds))
                } else {
                    None
                }
            }
        } else {
            None
        }
    } else {
        if t.len() > 0 && all_digits(t) {
            if digits_value(t) <= 0x7fff_ffff {
                Some(digits_value(t))
            } else {
                None
            }
        } else {
            None
        }
    }
}

/// Splitting on single spaces, keeping empty tokens, with `cur` the token
/// under construction.
pub open spec fn split_rec(s: Seq<char>, cur: Seq<char>) -> Seq<Seq<char>>
    decreases s.len(),
{
    if s.len() == 0 {
        seq![cur]
    } else if s[0] == ' ' {
        seq![cur] + split_rec(s.drop_first(), Seq::empty())
    } else {
        split_rec(s.drop_first(), cur.push(s[0]))
    }
}

/// The tokens of the text: maximal runs between single spaces, empty runs
/// kept.
pub open spec fn split_tokens(s: Seq<char>) -> Seq<Seq<char>> {
    split_rec(s, Seq::empty())
}

/// The 0-based positions a token list denotes: every token must denote a
/// value of at least 1, and each position is that value less one.
pub open spec fn tokens_selection(ts: Seq<Seq<char>>) -> Option<Seq<int>>
    decreases ts.len(),
{
    if ts.len() == 0 {
        Some(Seq::empty())
    } else {
        match token_value(ts[0]) {
            Some(v) => {
                if v >= 1 {
                    match tokens_selection(ts.drop_first()) {
                        Some(rest) => Some(seq![v - 1] + rest),
                        None => None,
                    }
                } else {
                    None
                }
            },
            None => None,
        }
    }
}

/// The 0-based positions the typed text denotes, if it is a well-formed
/// selection.
pub open spec fn selection_spec(s: Seq<char>) -> Option<Seq<int>> {
    tokens_selection(split_tokens(s))
}

/// The integer values of a list of positions.
pub open spec fn idxs_view(s: Seq<usize>) -> Seq<int> {
    s.map_values(|u: usize| u as int)
}

/// The character sequences of a list of character-vector tokens.
pub open spec fn tokens_view(ts: Seq<Vec<char>>) -> Seq<Seq<char>> {
    ts.map_values(|t: Vec<char>| t@)
}

/// A string of decimal digits never denotes a negative value.
proof fn lemma_digits_value_nonneg(s: Seq<char>)
    requires
        all_digits(s),
    ensures
        digits_value(s) >= 0,
    decreases s.len(),
{
    if s.len() > 0 {
        assert(all_digits(s.drop_last())) by {
            assert forall|i: int| 0 <= i < s.drop_last().len() implies is_digit(
                #[trigger] s.drop_last()[i],
            ) by {
                assert(is_digit(s[i]));
            }
        }
        lemma_digits_value_nonneg(s.drop_last());
        assert(is_digit(s.last()));
    }
}

/// The characters of the text, in order.
fn str_chars(s: &str) -> (r: Vec<char>)
    ensures
        r@ == s@,
{
    let n = s.unicode_len();
    let mut out: Vec<char> = Vec::new();
    let mut i: usize = 0;
    while i < n
        invariant
            i <= n,
            n == s@.len(),
            out@ =~= s@.subrange(0, i as int),
        decreases n - i,
    {
        out.push(s.get_char(i));
        i = i + 1;
    }
    proof {
        assert(out@ =~= s@);
    }
    out
}

/// Splits the characters on single spaces, keeping empty tokens.
fn split_chars(cs: &Vec<char>) -> (r: Vec<Vec<char>>)
    ensures
        tokens_view(r@) == split_tokens(cs@),
{
    let mut out: Vec<Vec<char>> = Vec::new();
    let mut cur: Vec<char> = Vec::new();
    let mut i: usize = 0;
    proof {
        assert(cs@.subrange(0, cs@.len() as int) =~= cs@);
        assert(tokens_view(out@) + split_rec(cs@.subrange(0, cs@.len() as int), cur@)
            =~= split_rec(cs@, Seq::empty()));
    }
    while i < cs.len()
        invariant
            i <= cs@.len(),
            split_tokens(cs@) == tokens_view(out@) + split_rec(
                cs@.subrange(i as int, cs@.len() as int),
                cur@,
            ),
        decreases cs@.len() - i,
    {
        let ghost rest = cs@.subrange(i as int, cs@.len() as int);
        proof {
            assert(rest[0] == cs@[i as int]);
            assert(rest.drop_first() =~= cs@.subrange(i as int + 1, cs@.len() as int));
        }
        let c = cs[i];
        if c == ' ' {
            out.push(cur);
            cur = Vec::new();
            proof {
                assert(tokens_view(out@) =~= tokens_view(out@.drop_last()).push(
                    out@.last()@,
                ));
                assert(tokens_view(out@) + split_rec(
                    cs@.subrange(i as int + 1, cs@.len() as int),
                    cur@,
                ) =~= split_tokens(cs@));
            }
        } else {
            cur.push(c);
        }
        i = i + 1;
    }
    proof {
        assert(cs@.subrange(cs@.len() as int, cs@.len() as int) =~= Seq::<char>::empty());
    }
    out.push(cur);
    proof {
        assert(tokens_view(out@) =~= tokens_view(out@.drop_last()).push(out@.last()@));
        assert(tokens_view(out@) =~= split_tokens(cs@));
    }
    out
}

/// Parses one token as a 1-based item number and returns its 0-based
/// position; nothing when the token is not such a number or names no
/// positive position.
fn parse_index(t: &Vec<char>) -> (r: Option<usize>)
    ensures
        r matches Some(idx) ==> token_value(t@) == Some(idx as int + 1),
        r is None ==> token_value(t@) is None || token_value(t@)->Some_0 < 1,
{
    let n = t.len();
    let mut start: usize = 0;
    let mut negative = false;
    if n > 0 {
        let c0 = t[0];
        if c0 == '+' || c0 == '-' {
            negative = c0 == '-';
            start = 1;
        }
    }
    if n == start {
        proof {
            if start == 1 {
                assert(t@.subrange(1, n as int).len() == 0);
            }
        }
        return None;
    }
    let ghost ds = t@.subrange(start as int, n as int);
    let mut acc: u64 = 0;
    let mut i: usize = start;
    proof {
        assert(t@.subrange(start as int, start as int) =~= Seq::<char>::empty());
    }
    while i < n
        invariant
            start <= i <= n,
            start < n,
            start <= 1,
            n == t@.len(),
            (start == 1) == (t@[0] == '+' || t@[0] == '-'),
            negative == (n > 0 && t@[0] == '-'),
            all_digits(t@.subrange(start as int, i as int)),
            (digits_value(t@.subrange(start as int, i as int)) <= 0xffff_ffff && acc
                == digits_value(t@.subrange(start as int, i as int))) || (digits_value(
                t@.subrange(start as int, i as int),
            ) > 0xffff_ffff && acc > 0xffff_ffff),
        decreases n - i,
    {
        let ghost pre = t@.subrange(start as int, i as int);
        let ghost cur = t@.subrange(start as int, i as int + 1);
        proof {
            assert(cur.drop_last() =~= pre);
            assert(cur.last() == t@[i as int]);
            lemma_digits_value_nonneg(pre);
        }
        let c = t[i];
        if c < '0' || c > '9' {
            proof {
                assert(!is_digit(t@[i as int]));
                // the full digit run would contain this non-digit
                if start == 1 {
                    let full = t@.subrange(1, n as int);
                    assert(full[i as int - 1] == t@[i as int]);
                    assert(!all_digits(full));
                } else {
                    assert(!all_digits(t@));
                }
            }
            return None;
        }
        let d: u64 = if c == '0' {
            0
        } else if c == '1' {
            1
        } else if c == '2' {
            2
        } else if c == '3' {
            3
        } else if c == '4' {
            4
        } else if c == '5' {
            5
        } else if c == '6' {
            6
        } else if c == '7' {
            7
        } else if c == '8' {
            8
        } else {
            9
        };
        proof {
            assert(is_digit(t@[i as int]));
            assert(digit_val(t@[i as int]) == d as int);
            assert(all_digits(cur)) by {
                assert forall|k: int| 0 <= k < cur.len() implies is_digit(#[trigger] cur[k]) by {
                    if k < pre.len() {
                        assert(is_digit(pre[k]));
                    }
                }
            }
        }
        if acc <= 0xffff_ffffu64 {
            acc = acc * 10 + d;
        }
        proof {
            let dv_pre = digits_value(pre);
            let dv_cur = digits_value(cur);
            assert(dv_cur == dv_pre * 10 + digit_val(t@[i as int]));
        }
        i = i + 1;
    }
    proof {
        assert(ds == t@.subrange(start as int, n as int));
        lemma_digits_value_nonneg(ds);
        if start == 1 {
            assert(ds == t@.subrange(1, n as int));
            assert(ds.len() > 0);
        } else {
            assert(ds =~= t@);
        }
    }
    if negative {
        // a signed value of at most zero never names an item
        return None;
    }
    if acc > 0x7fff_ffffu64 {
        return None;
    }
    if acc == 0 {
        return None;
    }
    proof {
        assert(digits_value(ds) == acc as int);
        if start == 1 {
            assert(t@[0] == '+');
            assert(token_value(t@) == Some(digits_value(ds)));
        } else {
            assert(token_value(t@) == Some(digits_value(t@)));
            assert(digits_value(t@) == digits_value(ds));
        }
    }
    Some((acc - 1) as usize)
}

/// Parses the typed text as a list of 1-based item numbers: the 0-based
/// positions they name, in order, or nothing when any token is not a
/// positive number.
pub fn parse_selection(text: &str) -> (r: Option<Vec<usize>>)
    ensures
        match selection_spec(text@) {
            Some(idxs) => r matches Some(v) && idxs_view(v@) == idxs,
            None => r is None,
        },
{
    let cs = str_chars(text);
    let tokens = split_chars(&cs);
    let ghost tv = tokens_view(tokens@);
    let mut out: Vec<usize> = Vec::new();
    let mut i: usize = 0;
    proof {
        assert(tv.subrange(0, tv.len() as int) =~= tv);
        assert(idxs_view(out@) =~= Seq::<int>::empty());
    }
    while i < tokens.len()
        invariant
            i <= tokens@.len(),
            tv == tokens_view(tokens@),
            tv.len() == tokens@.len(),
            selection_spec(text@) == tokens_selection(tv),
            match tokens_selection(tv.subrange(i as int, tv.len() as int)) {
                Some(rest) => tokens_selection(tv) == Some(idxs_view(out@) + rest),
                None => tokens_selection(tv) is None,
            },
        decreases tokens@.len() - i,
    {
        let ghost rest = tv.subrange(i as int, tv.len() as int);
        proof {
            assert(rest[0] == tv[i as int]);
            assert(tv[i as int] == tokens@[i as int]@);
            assert(rest.drop_first() =~= tv.subrange(i as int + 1, tv.len() as int));
        }
        let parsed = parse_index(&tokens[i]);
        match parsed {
            Some(idx) => {
                out.push(idx);
                proof {
                    let tail = tv.subrange(i as int + 1, tv.len() as int);
                    assert(token_value(rest[0]) == Some(idx as int + 1));
                    match tokens_selection(tail) {
                        Some(r2) => {
                            assert(tokens_selection(rest) == Some(
                                seq![idx as int] + r2,
                            ));
                            assert(idxs_view(out@) =~= idxs_view(out@.drop_last()).push(
                                idx as int,
                            ));
                            assert(idxs_view(out@) + r2 =~= idxs_view(out@.drop_last()) + (
                            seq![idx as int] + r2));
                        },
                        None => {
                            assert(tokens_selection(rest) is None);
                        },
                    }
                }
            },
            None => {
                proof {
                    assert(tokens_selection(rest) is None);
                }
                return None;
            },
        }
        i = i + 1;
    }
    proof {
        assert(tv.subrange(tv.len() as int, tv.len() as int) =~= Seq::<Seq<char>>::empty());
        match tokens_selection(tv) {
            Some(idxs) => {
                assert(idxs_view(out@) + Seq::<int>::empty() =~= idxs_view(out@));
            },
            None => {},
        }
    }
    Some(out)
}

/// Resolves 0-based positions against the current link list: the named
/// links in selection order, or nothing when some position no longer
/// names an item.
pub fn resolve_selection(links: &Vec<String>, idxs: &Vec<usize>) -> (r: Option<Vec<String>>)
    ensures
        r is Some <==> forall|k: int|
            0 <= k < idxs@.len() ==> (#[trigger] idxs@[k]) < links@.len(),
        r matches Some(sel) ==> urls_view(sel@) == idxs@.map_values(
            |u: usize| urls_view(links@)[u as int],
        ),
{
    let mut out: Vec<String> = Vec::new();
    let mut k: usize = 0;
    while k < idxs.len()
        invariant
            k <= idxs@.len(),
            forall|j: int| 0 <= j < k ==> (#[trigger] idxs@[j]) < links@.len(),
            out@.len() == k,
            forall|j: int| 0 <= j < k ==> #[trigger] out@[j]@ == links@[idxs@[j] as int]@,
        decreases idxs@.len() - k,
    {
        let idx = idxs[k];
        if idx >= links.len() {
            return None;
        }
        out.push(links[idx].clone());
        k = k + 1;
    }
    proof {
        assert(urls_view(out@) =~= idxs@.map_values(|u: usize| urls_view(links@)[u as int]));
    }
    Some(out)
}

/// The full selective-delete decision: parses the typed text and resolves
/// it against the current list, telling ill-formed input apart from
/// positions whose items no longer exist.
pub fn plan_selective_delete(text: &str, links: &Vec<String>) -> (r: Result<
    Vec<String>,
    SelectionError,
>)
    ensures
        match selection_spec(text@) {
            None => r == Err::<Vec<String>, SelectionError>(SelectionError::InvalidInput),
            Some(idxs) => {
                if forall|k: int| 0 <= k < idxs.len() ==> 0 <= #[trigger] idxs[k] < links@.len() {
                    r matches Ok(sel) && urls_view(sel@) == idxs.map_values(
                        |i: int| urls_view(links@)[i],
                    )
                } else {
                    r == Err::<Vec<String>, SelectionError>(SelectionError::MissingItems)
                }
            },
        },
{
    let parsed = parse_selection(text);
    match parsed {
        None => Err(SelectionError::InvalidInput),
        Some(idxs) => {
            let resolved = resolve_selection(links, &idxs);
            match resolved {
                None => {
                    proof {
                        let sel = selection_spec(text@)->Some_0;
                        let k = choose|k: int|
                            0 <= k < idxs@.len() && !((#[trigger] idxs@[k]) < links@.len());
                        assert(sel[k] == idxs@[k] as int);
                    }
                    Err(SelectionError::MissingItems)
                },
                Some(sel) => {
                    proof {
                        let si = selection_spec(text@)->Some_0;
                        assert forall|k: int| 0 <= k < si.len() implies 0 <= #[trigger] si[k]
                            < links@.len() by {
                            assert(si[k] == idxs@[k] as int);
                            assert(idxs@[k] < links@.len());
                        }
                        assert(urls_view(sel@) =~= si.map_values(|i: int| urls_view(links@)[i]));
                    }
                    Ok(sel)
                },
            }
        },
    }
}

} // verus!
