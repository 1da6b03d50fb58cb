//! The attribute path resolver: parses one attribute value specifier of the
//! shape `[../]*[./]*name[!filter]*` into an ancestor level, an attribute
//! name, and a filter chain.

use vstd::prelude::*;
use crate::errors::{CompileError, CompileErrorV};
use crate::filter::{Filters, TextFilter};
use crate::text::str_eq;

verus! {

/// Strips the leading ancestor-step (`../`) and current (`./`) markers off a
/// specifier; yields the number of ancestor steps and the remaining text.
pub open spec fn strip_levels(s: Seq<char>) -> (int, Seq<char>)
    decreases s.len(),
{
    if s.len() >= 3 && s.subrange(0, 3) == "../"@ {
        let rest = strip_levels(s.skip(3));
        (rest.0 + 1, rest.1)
    } else if s.len() >= 2 && s.subrange(0, 2) == "./"@ {
        strip_levels(s.skip(2))
    } else {
        (0, s)
    }
}

/// The position of the first chain separator `!`, if any.
pub open spec fn first_bang(s: Seq<char>) -> Option<int>
    decreases s.len(),
{
    if s.len() == 0 {
        None
    } else if s[0] == '!' {
        Some(0)
    } else {
        match first_bang(s.drop_first()) {
            None => None,
            Some(i) => Some(i + 1),
        }
    }
}

/// Characterizes [`first_bang`]: it finds the first `!`, and finds nothing
/// only when no `!` occurs at all.
pub proof fn lemma_first_bang(s: Seq<char>)
    ensures
        match first_bang(s) {
            Some(i) => 0 <= i < s.len() && s[i] == '!' && forall|k: int|
                0 <= k < i ==> s[k] != '!',
            None => forall|k: int| 0 <= k < s.len() ==> s[k] != '!',
        },
    decreases s.len(),
{
    if s.len() == 0 {
    } else if s[0] == '!' {
    } else {
        lemma_first_bang(s.drop_first());
        match first_bang(s.drop_first()) {
            Some(i2) => {
                assert forall|k: int| 0 <= k < i2 + 1 implies s[k] != '!' by {
                    if k > 0 {
                        assert(s.drop_first()[k - 1] != '!');
                    }
                }
            },
            None => {
                assert forall|k: int| 0 <= k < s.len() implies s[k] != '!' by {
                    if k > 0 {
                        assert(s.drop_first()[k - 1] != '!');
                    }
                }
            },
        }
    }
}

/// The converse direction: a position that is a first `!` is what
/// [`first_bang`] returns.
pub proof fn lemma_first_bang_at(s: Seq<char>, i: int)
    requires
        0 <= i < s.len(),
        s[i] == '!',
        forall|k: int| 0 <= k < i ==> s[k] != '!',
    ensures
        first_bang(s) == Some(i),
    decreases s.len(),
{
    if i == 0 {
    } else {
        assert(forall|k: int| 0 <= k < s.drop_first().len() ==> s.drop_first()[k] == s[k + 1]);
        lemma_first_bang_at(s.drop_first(), i - 1);
    }
}

/// No `!` anywhere means [`first_bang`] finds nothing.
pub proof fn lemma_first_bang_none(s: Seq<char>)
    requires
        forall|k: int| 0 <= k < s.len() ==> s[k] != '!',
    ensures
        first_bang(s) is None,
    decreases s.len(),
{
    if s.len() > 0 {
        assert(forall|k: int| 0 <= k < s.drop_first().len() ==> s.drop_first()[k] == s[k + 1]);
        lemma_first_bang_none(s.drop_first());
    }
}

/// The filter a name denotes, if it is in the closed set.
pub open spec fn filter_of_name(n: Seq<char>) -> Option<TextFilter> {
    if n == "none"@ || n == "nothing"@ {
        Some(TextFilter::Nothing)
    } else if n == "unix"@ {
        Some(TextFilter::UnixEscape)
    } else if n == "tsv"@ {
        Some(TextFilter::TSVEscape)
    } else {
        None
    }
}

/// Parses the text after a chain separator as a `!`-separated list of filter
/// names; an unrecognized name is returned as the error.
pub open spec fn parse_chain(s: Seq<char>) -> Result<Seq<TextFilter>, Seq<char>>
    decreases s.len(),
    via parse_chain_decreases
{
    match first_bang(s) {
        None => match filter_of_name(s) {
            Some(f) => Ok(seq![f]),
            None => Err(s),
        },
        Some(i) => match filter_of_name(s.take(i)) {
            Some(f) => match parse_chain(s.skip(i + 1)) {
                Ok(fs) => Ok(seq![f] + fs),
                Err(n) => Err(n),
            },
            None => Err(s.take(i)),
        },
    }
}

#[via_fn]
proof fn parse_chain_decreases(s: Seq<char>) {
    lemma_first_bang(s);
}

/// Splits a specifier with the level markers already stripped into its base
/// attribute name and its filter chain.
pub open spec fn spec_parse_both(s: Seq<char>) -> Result<(Seq<char>, Seq<TextFilter>), Seq<char>> {
    match first_bang(s) {
        None => Ok((s, Seq::empty())),
        Some(i) => match parse_chain(s.skip(i + 1)) {
            Ok(fs) => Ok((s.take(i), fs)),
            Err(n) => Err(n),
        },
    }
}

/// Parses a whole specifier: level markers, base name, filter chain.
pub open spec fn spec_parse_specifier(s: Seq<char>) -> Result<
    (int, Seq<char>, Seq<TextFilter>),
    Seq<char>,
> {
    let lv = strip_levels(s);
    match spec_parse_both(lv.1) {
        Ok(p) => Ok((lv.0, p.0, p.1)),
        Err(n) => Err(n),
    }
}

/// Scans for the first `!` at or after `from`.
fn find_bang(s: &str, from: usize) -> (r: Option<usize>)
    requires
        from <= s@.len(),
    ensures
        match r {
            Some(j) => from <= j < s@.len() && first_bang(s@.skip(from as int)) == Some(
                j - from,
            ),
            None => first_bang(s@.skip(from as int)) is None,
        },
{
    let n = s.unicode_len();
    let mut j = from;
    while j < n
        invariant
            from <= j <= n,
            n == s@.len(),
            forall|k: int| from <= k < j ==> s@[k] != '!',
        decreases n - j,
    {
        if s.get_char(j) == '!' {
            proof {
                let t = s@.skip(from as int);
                assert(forall|k: int| 0 <= k < t.len() ==> t[k] == s@[k + from]);
                lemma_first_bang_at(t, j - from);
            }
            return Some(j);
        }
        j = j + 1;
    }
    proof {
        let t = s@.skip(from as int);
        assert(forall|k: int| 0 <= k < t.len() ==> t[k] == s@[k + from]);
        lemma_first_bang_none(t);
    }
    None
}

/// Parses one filter name against the closed set of known names.
fn filter_name(piece: &str) -> (r: Option<TextFilter>)
    ensures
        r == filter_of_name(piece@),
{
    if str_eq(piece, "none") || str_eq(piece, "nothing") {
        Some(TextFilter::Nothing)
    } else if str_eq(piece, "unix") {
        Some(TextFilter::UnixEscape)
    } else if str_eq(piece, "tsv") {
        Some(TextFilter::TSVEscape)
    } else {
        None
    }
}

impl Filters {
    /// Splits a specifier (with no level markers) into the base attribute
    /// name and the parsed filter chain; an unknown filter name is a
    /// compilation error naming it.
    pub fn parse_both(s: &str) -> (r: Result<(String, Filters), CompileError>)
        ensures
            match spec_parse_both(s@) {
                Ok(p) => r matches Ok(t) && t.0@ == p.0 && t.1@ == p.1,
                Err(n) => r matches Err(e) && e@ == CompileErrorV::UnknownFilter(n),
            },
    {
        let n = s.unicode_len();
        let start = match find_bang(s, 0) {
            None => {
                proof {
                    assert(s@.skip(0) =~= s@);
                }
                return Ok((s.to_owned(), Filters(Vec::new())));
            },
            Some(i) => {
                proof {
                    assert(s@.skip(0) =~= s@);
                }
                i
            },
        };
        let ghost i = start as int;
        let name = s.substring_char(0, start).to_owned();
        proof {
            assert(name@ =~= s@.take(i));
        }
        let mut fs: Vec<TextFilter> = Vec::new();
        let mut pos = start + 1;
        loop
            invariant
                n == s@.len(),
                start < pos <= n,
                first_bang(s@) == Some(i),
                0 <= i < n,
                i + 1 == start + 1,
                name@ == s@.take(i),
                (match parse_chain(s@.skip(pos as int)) {
                    Ok(rest) => parse_chain(s@.skip(i + 1)) == Ok::<_, Seq<char>>(fs@ + rest),
                    Err(x) => parse_chain(s@.skip(i + 1)) == Err::<Seq<TextFilter>, _>(x),
                }),
            decreases n - pos,
        {
            let ghost remaining = s@.skip(pos as int);
            match find_bang(s, pos) {
                None => {
                    let piece = s.substring_char(pos, n);
                    proof {
                        assert(piece@ =~= remaining);
                    }
                    match filter_name(piece) {
                        Some(f) => {
                            fs.push(f);
                            proof {
                                assert(parse_chain(remaining) == Ok::<_, Seq<char>>(seq![f]));
                                assert(fs@.drop_last() + seq![f] =~= fs@);
                            }
                            return Ok((name, Filters(fs)));
                        },
                        None => {
                            return Err(CompileError::UnknownFilter(piece.to_owned()));
                        },
                    }
                },
                Some(j) => {
                    let piece = s.substring_char(pos, j);
                    proof {
                        assert(piece@ =~= remaining.take(j - pos));
                    }
                    match filter_name(piece) {
                        Some(f) => {
                            let ghost fs_old = fs@;
                            let ghost rest_after = s@.skip(j + 1);
                            proof {
                                assert(remaining.skip(j - pos + 1) =~= rest_after);
                                assert(first_bang(remaining) == Some(j - pos));
                                assert(filter_of_name(remaining.take(j - pos)) == Some(f));
                                assert(parse_chain(remaining) == (match parse_chain(rest_after) {
                                    Ok(fs2) => Ok::<_, Seq<char>>(seq![f] + fs2),
                                    Err(nm) => Err::<Seq<TextFilter>, _>(nm),
                                }));
                            }
                            fs.push(f);
                            proof {
                                assert(fs@ =~= fs_old.push(f));
                                match parse_chain(rest_after) {
                                    Ok(fs2) => {
                                        assert(fs_old + (seq![f] + fs2) =~= fs@ + fs2);
                                        assert(parse_chain(s@.skip(i + 1)) == Ok::<_, Seq<char>>(
                                            fs@ + fs2,
                                        ));
                                    },
                                    Err(nm) => {
                                        assert(parse_chain(s@.skip(i + 1)) == Err::<
                                            Seq<TextFilter>,
                                            _,
                                        >(nm));
                                    },
                                }
                            }
                            pos = j + 1;
                        },
                        None => {
                            return Err(CompileError::UnknownFilter(piece.to_owned()));
                        },
                    }
                },
            }
        }
    }
}

/// Parses a whole attribute value specifier into its ancestor level, base
/// attribute name, and filter chain.
pub fn parse_specifier(s: &str) -> (r: Result<(usize, String, Filters), CompileError>)
    ensures
        match spec_parse_specifier(s@) {
            Ok(t) => r matches Ok(o) && o.0 as int == t.0 && o.1@ == t.1 && o.2@ == t.2,
            Err(n) => r matches Err(e) && e@ == CompileErrorV::UnknownFilter(n),
        },
{
    let n = s.unicode_len();
    let mut pos: usize = 0;
    let mut level: usize = 0;
    proof {
        reveal_strlit("../");
        reveal_strlit("./");
        assert(s@.skip(0) =~= s@);
    }
    loop
        invariant
            n == s@.len(),
            pos <= n,
            3 * (level as int) <= pos as int,
            strip_levels(s@) == (level as int + strip_levels(s@.skip(pos as int)).0, strip_levels(
                s@.skip(pos as int),
            ).1),
            "../"@ == seq!['.', '.', '/'],
            "./"@ == seq!['.', '/'],
        ensures
            pos <= n,
            strip_levels(s@) == (level as int, s@.skip(pos as int)),
        decreases n - pos,
    {
        let ghost rem = s@.skip(pos as int);
        if n - pos >= 3 && s.get_char(pos) == '.' && s.get_char(pos + 1) == '.' && s.get_char(
            pos + 2,
        ) == '/' {
            proof {
                assert(rem.subrange(0, 3) =~= seq!['.', '.', '/']);
                assert(rem.skip(3) =~= s@.skip(pos + 3));
            }
            level = level + 1;
            pos = pos + 3;
        } else if n - pos >= 2 && s.get_char(pos) == '.' && s.get_char(pos + 1) == '/' {
            proof {
                assert(rem.len() >= 3 ==> rem.subrange(0, 3)[1] == s@[pos as int + 1]);
                assert(rem.subrange(0, 2) =~= seq!['.', '/']);
                assert(rem.skip(2) =~= s@.skip(pos + 2));
            }
            pos = pos + 2;
        } else {
            proof {
                if rem.len() >= 3 && rem.subrange(0, 3) == "../"@ {
                    assert(rem.subrange(0, 3)[0] == s@[pos as int]);
                    assert(rem.subrange(0, 3)[1] == s@[pos as int + 1]);
                    assert(rem.subrange(0, 3)[2] == s@[pos as int + 2]);
                    assert(false);
                }
                if rem.len() >= 2 && rem.subrange(0, 2) == "./"@ {
                    assert(rem.subrange(0, 2)[0] == s@[pos as int]);
                    assert(rem.subrange(0, 2)[1] == s@[pos as int + 1]);
                    assert(false);
                }
            }
            break;
        }
    }
    let rest = s.substring_char(pos, n);
    proof {
        assert(rest@ =~= s@.skip(pos as int));
    }
    match Filters::parse_both(rest) {
        Ok((name, filters)) => Ok((level, name, filters)),
        Err(e) => Err(e),
    }
}


/// The ancestor level a specifier parses to is never negative.
pub proof fn lemma_strip_levels_nonneg(s: Seq<char>)
    ensures
        strip_levels(s).0 >= 0,
    decreases s.len(),
{
    if s.len() >= 3 && s.subrange(0, 3) == "../"@ {
        lemma_strip_levels_nonneg(s.skip(3));
    } else if s.len() >= 2 && s.subrange(0, 2) == "./"@ {
        lemma_strip_levels_nonneg(s.skip(2));
    }
}

} // verus!
