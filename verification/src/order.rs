//! The ordered-argument reconstructor: a flag-parsing layer reports, per
//! flag, the token positions and values of its occurrences, but not one
//! global ordering across flags.  This module rebuilds that ordering: it
//! flattens every (position, flag, values) occurrence, stable-sorts by
//! position, and strips the positions, yielding the directive sequence the
//! user actually typed.  It is a pure function of the occurrence data, so
//! any flag library that exposes positions can feed it.

use vstd::prelude::*;
use crate::compile::{Directive, DirectiveV};

verus! {

/// What a flag-parsing layer reports for one recognized flag: the flag's
/// name, how many argument slots one occurrence consumes, the token
/// positions of all its captured values (or of the occurrences themselves
/// for a flag without arguments), and all its captured values in order.
#[derive(Debug, Clone, PartialEq, Eq)]
pub struct FlagOccurrences {
    pub name: String,
    pub num_vals: usize,
    pub indices: Vec<usize>,
    pub values: Vec<String>,
}

/// The mathematical image of a [`FlagOccurrences`].
pub struct FlagOccurrencesV {
    pub name: Seq<char>,
    pub num_vals: int,
    pub indices: Seq<usize>,
    pub values: Seq<Seq<char>>,
}

impl View for FlagOccurrences {
    type V = FlagOccurrencesV;

    open spec fn view(&self) -> FlagOccurrencesV {
        FlagOccurrencesV {
            name: self.name@,
            num_vals: self.num_vals as int,
            indices: self.indices@,
            values: self.values.deep_view(),
        }
    }
}

impl DeepView for FlagOccurrences {
    type V = FlagOccurrencesV;

    open spec fn deep_view(&self) -> FlagOccurrencesV {
        self@
    }
}

/// One directive occurrence still carrying its token position.
#[derive(Debug, Clone, PartialEq, Eq)]
pub struct PosDirective {
    pub pos: usize,
    pub name: String,
    pub values: Vec<String>,
}

/// The mathematical image of a [`PosDirective`].
pub struct PosDirectiveV {
    pub pos: int,
    pub name: Seq<char>,
    pub values: Seq<Seq<char>>,
}

impl View for PosDirective {
    type V = PosDirectiveV;

    open spec fn view(&self) -> PosDirectiveV {
        PosDirectiveV { pos: self.pos as int, name: self.name@, values: self.values.deep_view() }
    }
}

impl DeepView for PosDirective {
    type V = PosDirectiveV;

    open spec fn deep_view(&self) -> PosDirectiveV {
        self@
    }
}

/// The smaller of two numbers.
pub open spec fn spec_min(a: int, b: int) -> int {
    if a <= b {
        a
    } else {
        b
    }
}

/// The occurrences of a flag without argument slots: one entry per recorded
/// position, with no values.
pub open spec fn zero_entries(name: Seq<char>, idxs: Seq<usize>) -> Seq<PosDirectiveV>
    decreases idxs.len(),
{
    if idxs.len() == 0 {
        Seq::empty()
    } else {
        seq![PosDirectiveV { pos: idxs[0] as int, name, values: Seq::empty() }] + zero_entries(
            name,
            idxs.drop_first(),
        )
    }
}

/// The occurrences of a flag with `n` argument slots: positions and values
/// are cut into chunks of `n` in lockstep (a final short chunk is kept, as a
/// chunking of each list on its own would produce), each pair becoming one
/// entry positioned at its first token.
pub open spec fn pair_entries(
    name: Seq<char>,
    idxs: Seq<usize>,
    vals: Seq<Seq<char>>,
    n: int,
) -> Seq<PosDirectiveV>
    decreases idxs.len(),
    when n >= 1
{
    if idxs.len() == 0 || vals.len() == 0 {
        Seq::empty()
    } else {
        let k1 = spec_min(n, idxs.len() as int);
        let k2 = spec_min(n, vals.len() as int);
        seq![PosDirectiveV { pos: idxs[0] as int, name, values: vals.take(k2) }] + pair_entries(
            name,
            idxs.skip(k1),
            vals.skip(k2),
            n,
        )
    }
}

/// Every occurrence of one flag, as positioned entries.
pub open spec fn flag_entries(f: FlagOccurrencesV) -> Seq<PosDirectiveV> {
    if f.num_vals == 0 {
        zero_entries(f.name, f.indices)
    } else {
        pair_entries(f.name, f.indices, f.values, f.num_vals)
    }
}

/// Every occurrence of every flag, flattened in the order the flags were
/// reported.
pub open spec fn all_entries(flags: Seq<FlagOccurrencesV>) -> Seq<PosDirectiveV>
    decreases flags.len(),
{
    if flags.len() == 0 {
        Seq::empty()
    } else {
        flag_entries(flags[0]) + all_entries(flags.drop_first())
    }
}

/// Inserts an entry into a position-sorted sequence, after every entry with
/// a position not above its own: insertion keeps equal positions stable.
pub open spec fn insert_by_pos(s: Seq<PosDirectiveV>, e: PosDirectiveV) -> Seq<PosDirectiveV>
    decreases s.len(),
{
    if s.len() == 0 {
        seq![e]
    } else if s.last().pos <= e.pos {
        s.push(e)
    } else {
        insert_by_pos(s.drop_last(), e).push(s.last())
    }
}

/// Stable insertion sort by position.
pub open spec fn sort_by_pos(s: Seq<PosDirectiveV>) -> Seq<PosDirectiveV>
    decreases s.len(),
{
    if s.len() == 0 {
        Seq::empty()
    } else {
        insert_by_pos(sort_by_pos(s.drop_last()), s.last())
    }
}

/// The directives left once the positions are stripped.
pub open spec fn strip_positions(s: Seq<PosDirectiveV>) -> Seq<DirectiveV> {
    s.map_values(|p: PosDirectiveV| DirectiveV { name: p.name, values: p.values })
}

/// The ordered directive sequence reconstructed from per-flag occurrence
/// data.
pub open spec fn spec_ordered_directives(flags: Seq<FlagOccurrencesV>) -> Seq<DirectiveV> {
    strip_positions(sort_by_pos(all_entries(flags)))
}

/// Clones a list of strings.
fn clone_values(v: &Vec<String>) -> (r: Vec<String>)
    ensures
        r.deep_view() == v.deep_view(),
        r@.len() == v@.len(),
{
    let n = v.len();
    let mut r: Vec<String> = Vec::new();
    let mut i: usize = 0;
    while i < n
        invariant
            n == v.len(),
            i <= n,
            r@.len() == i,
            forall|k: int| 0 <= k < i ==> r@[k]@ == v@[k]@,
        decreases n - i,
    {
        r.push(v[i].clone());
        i = i + 1;
    }
    proof {
        assert(r.deep_view() =~= v.deep_view());
    }
    r
}

/// The positioned entries of one flag.
fn flag_entries_exec(f: &FlagOccurrences) -> (r: Vec<PosDirective>)
    ensures
        r.deep_view() == flag_entries(f@),
{
    let ghost fv = f@;
    let mut out: Vec<PosDirective> = Vec::new();
    proof {
        assert(out.deep_view() =~= Seq::<PosDirectiveV>::empty());
    }
    if f.num_vals == 0 {
        let n = f.indices.len();
        let mut i: usize = 0;
        proof {
            assert(fv.indices.skip(0) =~= fv.indices);
        }
        while i < n
            invariant
                fv == f@,
                n == f.indices.len(),
                i <= n,
                zero_entries(fv.name, fv.indices) == out.deep_view() + zero_entries(
                    fv.name,
                    fv.indices.skip(i as int),
                ),
            decreases n - i,
        {
            let ghost before = out.deep_view();
            let empty_vals: Vec<String> = Vec::new();
            proof {
                assert(empty_vals.deep_view() =~= Seq::<Seq<char>>::empty());
                assert(fv.indices.skip(i as int)[0] == fv.indices[i as int]);
                assert(fv.indices.skip(i as int).drop_first() =~= fv.indices.skip(i + 1));
            }
            out.push(PosDirective { pos: f.indices[i], name: f.name.clone(), values: empty_vals });
            proof {
                assert(out.deep_view() =~= before.push(
                    PosDirectiveV {
                        pos: fv.indices[i as int] as int,
                        name: fv.name,
                        values: Seq::empty(),
                    },
                ));
                assert(before + (seq![
                    PosDirectiveV {
                        pos: fv.indices[i as int] as int,
                        name: fv.name,
                        values: Seq::empty(),
                    },
                ] + zero_entries(fv.name, fv.indices.skip(i + 1))) =~= out.deep_view()
                    + zero_entries(fv.name, fv.indices.skip(i + 1)));
            }
            i = i + 1;
        }
        proof {
            assert(fv.indices.skip(n as int) =~= Seq::<usize>::empty());
            assert(out.deep_view() + Seq::<PosDirectiveV>::empty() =~= out.deep_view());
        }
    } else {
        let ilen = f.indices.len();
        let vlen = f.values.len();
        let mut j1: usize = 0;
        let mut j2: usize = 0;
        proof {
            assert(fv.indices.skip(0) =~= fv.indices);
            assert(fv.values.skip(0) =~= fv.values);
        }
        while j1 < ilen && j2 < vlen
            invariant
                fv == f@,
                fv.num_vals >= 1,
                ilen == f.indices.len(),
                vlen == f.values.len(),
                j1 <= ilen,
                j2 <= vlen,
                pair_entries(fv.name, fv.indices, fv.values, fv.num_vals) == out.deep_view()
                    + pair_entries(
                    fv.name,
                    fv.indices.skip(j1 as int),
                    fv.values.skip(j2 as int),
                    fv.num_vals,
                ),
            decreases ilen - j1,
        {
            let ghost before = out.deep_view();
            let ghost idxs_rem = fv.indices.skip(j1 as int);
            let ghost vals_rem = fv.values.skip(j2 as int);
            let k1 = if f.num_vals < ilen - j1 {
                f.num_vals
            } else {
                ilen - j1
            };
            let k2 = if f.num_vals < vlen - j2 {
                f.num_vals
            } else {
                vlen - j2
            };
            proof {
                assert(k1 as int == spec_min(fv.num_vals, idxs_rem.len() as int));
                assert(k2 as int == spec_min(fv.num_vals, vals_rem.len() as int));
            }
            let mut chunk: Vec<String> = Vec::new();
            let mut t: usize = 0;
            while t < k2
                invariant
                    fv == f@,
                    vlen == f.values.len(),
                    j2 + k2 <= vlen,
                    t <= k2,
                    chunk.deep_view() =~= fv.values.subrange(j2 as int, j2 + t),
                decreases k2 - t,
            {
                let ghost chunk_before = chunk.deep_view();
                chunk.push(f.values[j2 + t].clone());
                proof {
                    assert(chunk.deep_view() =~= chunk_before.push(fv.values[j2 + t]));
                    assert(chunk.deep_view() =~= fv.values.subrange(j2 as int, j2 + t + 1));
                }
                t = t + 1;
            }
            proof {
                assert(chunk.deep_view() =~= vals_rem.take(k2 as int));
                assert(idxs_rem[0] == fv.indices[j1 as int]);
                assert(idxs_rem.skip(k1 as int) =~= fv.indices.skip(j1 + k1));
                assert(vals_rem.skip(k2 as int) =~= fv.values.skip(j2 + k2));
            }
            out.push(PosDirective { pos: f.indices[j1], name: f.name.clone(), values: chunk });
            proof {
                let entry = PosDirectiveV {
                    pos: fv.indices[j1 as int] as int,
                    name: fv.name,
                    values: vals_rem.take(k2 as int),
                };
                assert(out.deep_view() =~= before.push(entry));
                assert(before + (seq![entry] + pair_entries(
                    fv.name,
                    fv.indices.skip(j1 + k1),
                    fv.values.skip(j2 + k2),
                    fv.num_vals,
                )) =~= out.deep_view() + pair_entries(
                    fv.name,
                    fv.indices.skip(j1 + k1),
                    fv.values.skip(j2 + k2),
                    fv.num_vals,
                ));
            }
            j1 = j1 + k1;
            j2 = j2 + k2;
        }
        proof {
            if j1 >= ilen {
                assert(fv.indices.skip(j1 as int).len() == 0);
            } else {
                assert(fv.values.skip(j2 as int).len() == 0);
            }
            assert(out.deep_view() + Seq::<PosDirectiveV>::empty() =~= out.deep_view());
        }
    }
    out
}

/// Where an entry lands when inserted into a sorted prefix: after every
/// element with a position not above its own.
proof fn lemma_insert_at(s: Seq<PosDirectiveV>, e: PosDirectiveV, j: int)
    requires
        0 <= j <= s.len(),
        forall|k: int| j <= k < s.len() ==> s[k].pos > e.pos,
        j > 0 ==> s[j - 1].pos <= e.pos,
    ensures
        insert_by_pos(s, e) == s.take(j) + seq![e] + s.skip(j),
    decreases s.len(),
{
    if j == s.len() {
        if s.len() == 0 {
            assert(insert_by_pos(s, e) =~= s.take(j) + seq![e] + s.skip(j));
        } else {
            assert(s.last().pos <= e.pos);
            assert(s.take(j) =~= s);
            assert(s.skip(j) =~= Seq::<PosDirectiveV>::empty());
            assert(insert_by_pos(s, e) =~= s.take(j) + seq![e] + s.skip(j));
        }
    } else {
        assert(s.last().pos > e.pos);
        let d = s.drop_last();
        assert(forall|k: int| j <= k < d.len() ==> d[k] == s[k]);
        assert(j > 0 ==> d[j - 1] == s[j - 1]);
        lemma_insert_at(d, e, j);
        assert(d.take(j) =~= s.take(j));
        assert((d.take(j) + seq![e] + d.skip(j)).push(s.last()) =~= s.take(j) + seq![e] + s.skip(
            j,
        ));
    }
}

/// Inserts one entry into the sorted list, keeping it sorted and stable.
fn insert_sorted(sorted: &mut Vec<PosDirective>, e: PosDirective)
    ensures
        final(sorted).deep_view() == insert_by_pos(old(sorted).deep_view(), e@),
{
    let ghost s = sorted.deep_view();
    let ghost ev = e@;
    let n = sorted.len();
    let mut j = n;
    loop
        invariant
            s == sorted.deep_view(),
            ev == e@,
            n == sorted.len(),
            j <= n,
            forall|k: int| j <= k < n ==> #[trigger] s[k].pos > ev.pos,
        ensures
            j <= n,
            forall|k: int| j <= k < n ==> #[trigger] s[k].pos > ev.pos,
            j > 0 ==> s[j - 1].pos <= ev.pos,
        decreases j,
    {
        if j == 0 {
            break;
        }
        let prev = sorted[j - 1].pos;
        proof {
            assert(sorted[j - 1]@ == s[j - 1]);
            assert(prev as int == s[j - 1].pos);
        }
        if prev <= e.pos {
            break;
        }
        j = j - 1;
    }
    proof {
        lemma_insert_at(s, ev, j as int);
    }
    sorted.insert(j, e);
    proof {
        assert(sorted.deep_view() =~= s.take(j as int) + seq![ev] + s.skip(j as int));
    }
}

/// Reconstructs the globally ordered directive sequence from per-flag
/// occurrence data: flatten, stable-sort by token position, strip positions.
pub fn ordered_directives(flags: &Vec<FlagOccurrences>) -> (r: Vec<Directive>)
    ensures
        r.deep_view() == spec_ordered_directives(flags.deep_view()),
{
    let ghost fl = flags.deep_view();
    let nf = flags.len();
    let mut entries: Vec<PosDirective> = Vec::new();
    let mut i: usize = 0;
    proof {
        assert(fl.len() == nf);
        assert(fl.skip(0) =~= fl);
        assert(entries.deep_view() =~= Seq::<PosDirectiveV>::empty());
    }
    while i < nf
        invariant
            fl == flags.deep_view(),
            fl.len() == nf,
            nf == flags.len(),
            i <= nf,
            all_entries(fl) == entries.deep_view() + all_entries(fl.skip(i as int)),
        decreases nf - i,
    {
        let ghost before = entries.deep_view();
        proof {
            assert(flags[i as int].deep_view() == fl[i as int]);
            assert(fl.skip(i as int)[0] == fl[i as int]);
            assert(fl.skip(i as int).drop_first() =~= fl.skip(i + 1));
        }
        let mut fresh = flag_entries_exec(&flags[i]);
        let ghost fresh_v = fresh.deep_view();
        entries.append(&mut fresh);
        proof {
            assert(entries.deep_view() =~= before + fresh_v);
            assert((before + fresh_v) + all_entries(fl.skip(i + 1)) =~= before + (fresh_v
                + all_entries(fl.skip(i + 1))));
        }
        i = i + 1;
    }
    proof {
        assert(fl.skip(nf as int) =~= Seq::<FlagOccurrencesV>::empty());
        assert(entries.deep_view() + Seq::<PosDirectiveV>::empty() =~= entries.deep_view());
    }
    let ghost all = entries.deep_view();
    let mut sorted: Vec<PosDirective> = Vec::new();
    let mut k: usize = 0;
    let ne = entries.len();
    proof {
        assert(all.len() == ne);
        assert(sorted.deep_view() =~= Seq::<PosDirectiveV>::empty());
        assert(all.take(0) =~= Seq::<PosDirectiveV>::empty());
    }
    while k < ne
        invariant
            all == entries.deep_view(),
            all.len() == ne,
            ne == entries.len(),
            k <= ne,
            sorted.deep_view() == sort_by_pos(all.take(k as int)),
        decreases ne - k,
    {
        let p = &entries[k];
        let e = PosDirective { pos: p.pos, name: p.name.clone(), values: clone_values(&p.values) };
        proof {
            assert(e@ == all[k as int]);
            assert(all.take(k + 1).drop_last() =~= all.take(k as int));
            assert(all.take(k + 1).last() == all[k as int]);
        }
        insert_sorted(&mut sorted, e);
        k = k + 1;
    }
    proof {
        assert(all.take(ne as int) =~= all);
    }
    let ghost sorted_v = sorted.deep_view();
    let mut out: Vec<Directive> = Vec::new();
    let mut m: usize = 0;
    let ns = sorted.len();
    proof {
        assert(sorted_v.len() == ns);
        assert(out.deep_view() =~= Seq::<DirectiveV>::empty());
        assert(out.deep_view() =~= strip_positions(sorted_v.take(0)));
    }
    while m < ns
        invariant
            sorted_v == sorted.deep_view(),
            sorted_v.len() == ns,
            ns == sorted.len(),
            m <= ns,
            out.deep_view() == strip_positions(sorted_v.take(m as int)),
        decreases ns - m,
    {
        let ghost before = out.deep_view();
        let p = &sorted[m];
        out.push(Directive { name: p.name.clone(), values: clone_values(&p.values) });
        proof {
            assert(sorted[m as int]@ == sorted_v[m as int]);
            assert(out.deep_view() =~= before.push(
                DirectiveV { name: sorted_v[m as int].name, values: sorted_v[m as int].values },
            ));
            assert(out.deep_view() =~= strip_positions(sorted_v.take(m + 1)));
        }
        m = m + 1;
    }
    proof {
        assert(sorted_v.take(ns as int) =~= sorted_v);
    }
    out
}


/// Nondecreasing by position.
pub open spec fn sorted_by_pos(s: Seq<PosDirectiveV>) -> bool {
    forall|i: int, j: int| 0 <= i < j < s.len() ==> s[i].pos <= s[j].pos
}

/// Inserting into a position-sorted sequence keeps it sorted and adds
/// exactly the new entry.
proof fn lemma_insert_by_pos_sorted(s: Seq<PosDirectiveV>, e: PosDirectiveV)
    requires
        sorted_by_pos(s),
    ensures
        sorted_by_pos(insert_by_pos(s, e)),
        insert_by_pos(s, e).len() == s.len() + 1,
        insert_by_pos(s, e).to_multiset() == s.to_multiset().insert(e),
    decreases s.len(),
{
    broadcast use vstd::seq_lib::group_to_multiset_ensures;

    if s.len() == 0 {
        assert(seq![e] =~= Seq::<PosDirectiveV>::empty().push(e));
        assert(Seq::<PosDirectiveV>::empty().push(e).to_multiset() =~= s.to_multiset().insert(e));
    } else if s.last().pos <= e.pos {
        let r = s.push(e);
        assert forall|i: int, j: int| 0 <= i < j < r.len() implies r[i].pos <= r[j].pos by {
            if j < s.len() {
            } else {
                assert(s[i].pos <= s[s.len() - 1].pos);
            }
        }
    } else {
        let d = s.drop_last();
        assert forall|i: int, j: int| 0 <= i < j < d.len() implies d[i].pos <= d[j].pos by {
            assert(s[i].pos <= s[j].pos);
        }
        lemma_insert_by_pos_sorted(d, e);
        let rec = insert_by_pos(d, e);
        let r = rec.push(s.last());
        assert forall|k: int| 0 <= k < rec.len() implies rec[k].pos <= s.last().pos by {
            assert(rec.contains(rec[k]));
            assert(rec.to_multiset().count(rec[k]) > 0);
            if rec[k] != e {
                assert(d.to_multiset().count(rec[k]) > 0);
                assert(d.contains(rec[k]));
                let i = choose|i: int| 0 <= i < d.len() && d[i] == rec[k];
                assert(s[i].pos <= s[s.len() - 1].pos);
            }
        }
        assert forall|i: int, j: int| 0 <= i < j < r.len() implies r[i].pos <= r[j].pos by {
            if j < rec.len() {
                assert(rec[i].pos <= rec[j].pos);
            } else {
                assert(rec[i].pos <= s.last().pos);
            }
        }
        assert(d.push(s.last()) =~= s);
        assert(s.to_multiset() =~= d.to_multiset().insert(s.last()));
        assert(d.to_multiset().insert(e).insert(s.last()) =~= d.to_multiset().insert(
            s.last(),
        ).insert(e));
    }
}

/// The reconstructor's sort really sorts: the result is ordered by token
/// position and holds exactly the occurrences that went in.
pub proof fn lemma_sort_by_pos_props(s: Seq<PosDirectiveV>)
    ensures
        sorted_by_pos(sort_by_pos(s)),
        sort_by_pos(s).len() == s.len(),
        sort_by_pos(s).to_multiset() == s.to_multiset(),
    decreases s.len(),
{
    broadcast use vstd::seq_lib::group_to_multiset_ensures;

    if s.len() > 0 {
        let d = s.drop_last();
        lemma_sort_by_pos_props(d);
        lemma_insert_by_pos_sorted(sort_by_pos(d), s.last());
        assert(d.push(s.last()) =~= s);
        assert(s.to_multiset() =~= d.to_multiset().insert(s.last()));
    }
}

} // verus!
