//! Text filters: pure transforms applied to resolved attribute values before
//! they are emitted.  A filter chain is an ordered list of filters applied
//! left to right; the empty chain is the identity.

use vstd::prelude::*;

verus! {

/// A named pure transform over text.
#[derive(Clone, Copy, Debug, PartialEq, Eq, Structural)]
pub enum TextFilter {
    /// The identity transform.
    Nothing,
    /// Backslash-escapes the control characters newline, tab and carriage
    /// return.
    UnixEscape,
    /// Escaping tuned for tabular output: backslash-escapes backslash,
    /// newline, tab and carriage return.
    TSVEscape,
}

/// What one filter turns a single character into.
pub open spec fn escape_char(f: TextFilter, c: char) -> Seq<char> {
    match f {
        TextFilter::Nothing => seq![c],
        TextFilter::UnixEscape => {
            if c == '\n' {
                seq!['\\', 'n']
            } else if c == '\t' {
                seq!['\\', 't']
            } else if c == '\r' {
                seq!['\\', 'r']
            } else {
                seq![c]
            }
        },
        TextFilter::TSVEscape => {
            if c == '\\' {
                seq!['\\', '\\']
            } else if c == '\n' {
                seq!['\\', 'n']
            } else if c == '\t' {
                seq!['\\', 't']
            } else if c == '\r' {
                seq!['\\', 'r']
            } else {
                seq![c]
            }
        },
    }
}

/// What one filter turns a text into: each character mapped through
/// [`escape_char`], results concatenated in order.
pub open spec fn filter_text(f: TextFilter, s: Seq<char>) -> Seq<char>
    decreases s.len(),
{
    if s.len() == 0 {
        Seq::empty()
    } else {
        escape_char(f, s[0]) + filter_text(f, s.drop_first())
    }
}

/// What a chain of filters turns a text into: the filters applied from left
/// to right.
pub open spec fn chain_text(fs: Seq<TextFilter>, s: Seq<char>) -> Seq<char>
    decreases fs.len(),
{
    if fs.len() == 0 {
        s
    } else {
        chain_text(fs.drop_first(), filter_text(fs[0], s))
    }
}

/// The identity filter really is the identity on every text.
pub proof fn lemma_nothing_identity(s: Seq<char>)
    ensures
        filter_text(TextFilter::Nothing, s) == s,
    decreases s.len(),
{
    if s.len() == 0 {
        assert(filter_text(TextFilter::Nothing, s) =~= s);
    } else {
        lemma_nothing_identity(s.drop_first());
        assert(filter_text(TextFilter::Nothing, s) =~= s);
    }
}

/// The empty filter chain is the identity function on every input.
pub proof fn lemma_empty_chain_identity(s: Seq<char>)
    ensures
        chain_text(Seq::<TextFilter>::empty(), s) == s,
{
}

/// Chains compose left to right: running the chain `fs1 + fs2` is running
/// `fs1` first and handing its result to `fs2`.
pub proof fn lemma_chain_append(fs1: Seq<TextFilter>, fs2: Seq<TextFilter>, s: Seq<char>)
    ensures
        chain_text(fs1 + fs2, s) == chain_text(fs2, chain_text(fs1, s)),
    decreases fs1.len(),
{
    if fs1.len() == 0 {
        assert(fs1 + fs2 =~= fs2);
    } else {
        assert((fs1 + fs2)[0] == fs1[0]);
        assert((fs1 + fs2).drop_first() =~= fs1.drop_first() + fs2);
        lemma_chain_append(fs1.drop_first(), fs2, filter_text(fs1[0], s));
    }
}

/// What one filter does to a one-character text.
proof fn lemma_filter_single(f: TextFilter, c: char)
    ensures
        filter_text(f, seq![c]) == escape_char(f, c),
{
    let s = seq![c];
    assert(s.drop_first() =~= Seq::<char>::empty());
    assert(filter_text(f, Seq::<char>::empty()) == Seq::<char>::empty());
    assert(filter_text(f, s) =~= escape_char(f, c));
}

/// What one filter does to a two-character text.
proof fn lemma_filter_pair(f: TextFilter, c1: char, c2: char)
    ensures
        filter_text(f, seq![c1, c2]) == escape_char(f, c1) + escape_char(f, c2),
{
    let s = seq![c1, c2];
    assert(s.drop_first() =~= seq![c2]);
    lemma_filter_single(f, c2);
    assert(filter_text(f, s) =~= escape_char(f, c1) + escape_char(f, c2));
}

/// What a two-filter chain does, spelled out.
proof fn lemma_chain_two(f1: TextFilter, f2: TextFilter, s: Seq<char>)
    ensures
        chain_text(seq![f1, f2], s) == filter_text(f2, filter_text(f1, s)),
{
    let ch = seq![f1, f2];
    assert(ch.drop_first() =~= seq![f2]);
    assert(seq![f2].drop_first() =~= Seq::<TextFilter>::empty());
    assert(chain_text(seq![f2], filter_text(f1, s)) == chain_text(
        Seq::<TextFilter>::empty(),
        filter_text(f2, filter_text(f1, s)),
    ));
}

/// Chain order matters: the tabular and unix escapes do not commute, since
/// only the tabular escape touches a backslash produced by the other.
pub proof fn lemma_chain_order_matters()
    ensures
        chain_text(seq![TextFilter::TSVEscape, TextFilter::UnixEscape], seq!['\t'])
            != chain_text(seq![TextFilter::UnixEscape, TextFilter::TSVEscape], seq!['\t']),
{
    let t = seq!['\t'];
    let bt = seq!['\\', 't'];
    lemma_filter_single(TextFilter::TSVEscape, '\t');
    lemma_filter_single(TextFilter::UnixEscape, '\t');
    assert(escape_char(TextFilter::TSVEscape, '\t') =~= bt);
    assert(escape_char(TextFilter::UnixEscape, '\t') =~= bt);
    lemma_filter_pair(TextFilter::UnixEscape, '\\', 't');
    lemma_filter_pair(TextFilter::TSVEscape, '\\', 't');
    lemma_chain_two(TextFilter::TSVEscape, TextFilter::UnixEscape, t);
    lemma_chain_two(TextFilter::UnixEscape, TextFilter::TSVEscape, t);
    let lhs = chain_text(seq![TextFilter::TSVEscape, TextFilter::UnixEscape], t);
    let rhs = chain_text(seq![TextFilter::UnixEscape, TextFilter::TSVEscape], t);
    assert(lhs =~= bt);
    assert(rhs =~= seq!['\\', '\\', 't']);
    assert(lhs.len() != rhs.len());
}

/// An ordered filter chain.
#[derive(Debug, Clone, PartialEq, Eq)]
pub struct Filters(pub Vec<TextFilter>);

impl View for Filters {
    type V = Seq<TextFilter>;

    open spec fn view(&self) -> Seq<TextFilter> {
        self.0@
    }
}

impl DeepView for Filters {
    type V = Seq<TextFilter>;

    open spec fn deep_view(&self) -> Seq<TextFilter> {
        self.0@
    }
}

impl Default for Filters {
    /// The default chain is empty: it leaves every text unchanged.
    fn default() -> (r: Self)
        ensures
            r@ == Seq::<TextFilter>::empty(),
    {
        Filters(Vec::new())
    }
}

/// Applies one filter to a string, producing the escaped text.
fn apply_one(f: TextFilter, s: &str) -> (r: String)
    ensures
        r@ == filter_text(f, s@),
{
    let n = s.unicode_len();
    let mut out = String::new();
    let mut i: usize = 0;
    proof {
        assert(s@.skip(0) =~= s@);
    }
    while i < n
        invariant
            n == s@.len(),
            i <= n,
            out@ + filter_text(f, s@.skip(i as int)) == filter_text(f, s@),
        decreases n - i,
    {
        let c = s.get_char(i);
        proof {
            assert(s@.skip(i as int)[0] == s@[i as int]);
            assert(s@.skip(i as int).drop_first() =~= s@.skip(i + 1));
        }
        let escaped: bool = match f {
            TextFilter::Nothing => false,
            TextFilter::UnixEscape => c == '\n' || c == '\t' || c == '\r',
            TextFilter::TSVEscape => c == '\\' || c == '\n' || c == '\t' || c == '\r',
        };
        if escaped {
            if c == '\n' {
                out.append("\\n");
                proof {
                    reveal_strlit("\\n");
                    assert("\\n"@ =~= escape_char(f, c));
                }
            } else if c == '\t' {
                out.append("\\t");
                proof {
                    reveal_strlit("\\t");
                    assert("\\t"@ =~= escape_char(f, c));
                }
            } else if c == '\r' {
                out.append("\\r");
                proof {
                    reveal_strlit("\\r");
                    assert("\\r"@ =~= escape_char(f, c));
                }
            } else {
                out.append("\\\\");
                proof {
                    reveal_strlit("\\\\");
                    assert("\\\\"@ =~= escape_char(f, c));
                }
            }
        } else {
            let piece = s.substring_char(i, i + 1);
            proof {
                assert(piece@ =~= escape_char(f, c));
            }
            out.append(piece);
        }
        proof {
            assert(out@ + filter_text(f, s@.skip(i + 1)) =~= filter_text(f, s@));
        }
        i = i + 1;
    }
    proof {
        assert(s@.skip(n as int) =~= Seq::<char>::empty());
        assert(out@ =~= filter_text(f, s@));
    }
    out
}

impl Filters {
    /// Applies the whole chain to a string, left to right.
    pub fn apply(&self, s: &str) -> (r: String)
        ensures
            r@ == chain_text(self@, s@),
    {
        let mut cur = s.to_owned();
        let n = self.0.len();
        let mut j: usize = 0;
        proof {
            assert(self@.skip(0) =~= self@);
        }
        while j < n
            invariant
                n == self@.len(),
                j <= n,
                chain_text(self@.skip(j as int), cur@) == chain_text(self@, s@),
            decreases n - j,
        {
            proof {
                assert(self@.skip(j as int)[0] == self@[j as int]);
                assert(self@.skip(j as int).drop_first() =~= self@.skip(j + 1));
            }
            cur = apply_one(self.0[j], cur.as_str());
            j = j + 1;
        }
        proof {
            assert(self@.skip(n as int) =~= Seq::<TextFilter>::empty());
        }
        cur
    }
}

} // verus!
