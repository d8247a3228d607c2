//! The nested HTML renderer: range boundaries become span tags, the
//! tags at each position are sorted so that closing tags precede
//! opening tags and outer ranges open first, and the sorted events
//! are turned into properly nested `<span>` markup.

use vstd::prelude::*;

use crate::frag::FragSpecs;
use vstd::multiset::Multiset;

verus! {

/// One range boundary at a text position: a range of the recorded
/// length opens here, or a range closes here.
#[derive(Clone, Copy, Debug, PartialEq, Eq, Structural)]
pub enum SpanTag {
    Start(FragSpecs, usize),
    End,
}

/// The sorting order of boundary tags at one position: every closing
/// tag before every opening tag, and among opening tags the longer
/// (outer) range first.
pub open spec fn spec_tag_le(a: SpanTag, b: SpanTag) -> bool {
    match (a, b) {
        (SpanTag::End, _) => true,
        (SpanTag::Start(..), SpanTag::End) => false,
        (SpanTag::Start(_, l1), SpanTag::Start(_, l2)) => l2 <= l1,
    }
}

pub fn tag_le(a: &SpanTag, b: &SpanTag) -> (r: bool)
    ensures
        r == spec_tag_le(*a, *b),
{
    match (a, b) {
        (SpanTag::End, _) => true,
        (SpanTag::Start(..), SpanTag::End) => false,
        (SpanTag::Start(_, l1), SpanTag::Start(_, l2)) => *l2 <= *l1,
    }
}

impl SpanTag {
    /// Three-way form of the same order.
    pub fn cmp(&self, other: &SpanTag) -> (r: core::cmp::Ordering)
        ensures
            (r is Less || r is Equal) == spec_tag_le(*self, *other),
            (r is Greater || r is Equal) == spec_tag_le(*other, *self),
    {
        match (self, other) {
            (SpanTag::Start(_, _), SpanTag::End) => core::cmp::Ordering::Greater,
            (SpanTag::End, SpanTag::Start(_, _)) => core::cmp::Ordering::Less,
            (SpanTag::Start(_, len_self), SpanTag::Start(_, len_other)) => {
                if *len_other < *len_self {
                    core::cmp::Ordering::Less
                } else if *len_other == *len_self {
                    core::cmp::Ordering::Equal
                } else {
                    core::cmp::Ordering::Greater
                }
            },
            (SpanTag::End, SpanTag::End) => core::cmp::Ordering::Equal,
        }
    }

    /// The order is total, so the partial comparison always answers.
    pub fn partial_cmp(&self, other: &SpanTag) -> (r: Option<core::cmp::Ordering>)
        ensures
            r is Some,
            ((r->Some_0) is Less || (r->Some_0) is Equal) == spec_tag_le(*self, *other),
            ((r->Some_0) is Greater || (r->Some_0) is Equal) == spec_tag_le(*other, *self),
    {
        Some(self.cmp(other))
    }
}

/// Insertion of `x` into `s` from the right: `x` lands after every
/// element that sorts no later than it, so insertion is stable.
pub open spec fn insert_sorted(s: Seq<SpanTag>, x: SpanTag) -> Seq<SpanTag>
    decreases s.len(),
{
    if s.len() == 0 {
        seq![x]
    } else if spec_tag_le(s.last(), x) {
        s.push(x)
    } else {
        insert_sorted(s.drop_last(), x).push(s.last())
    }
}

/// Stable insertion sort of the boundary tags, processing left to
/// right.
pub open spec fn spec_sort_tags(s: Seq<SpanTag>) -> Seq<SpanTag>
    decreases s.len(),
{
    if s.len() == 0 {
        Seq::empty()
    } else {
        insert_sorted(spec_sort_tags(s.drop_last()), s.last())
    }
}

/// Where the scan from the right stopped, the insertion splits the
/// sequence there.
proof fn lemma_insert_sorted_split(s: Seq<SpanTag>, x: SpanTag, p: int)
    requires
        0 <= p <= s.len(),
        p == 0 || spec_tag_le(s[p - 1], x),
        forall|k: int| p <= k < s.len() ==> !spec_tag_le(#[trigger] s[k], x),
    ensures
        insert_sorted(s, x) == s.take(p) + seq![x] + s.skip(p),
    decreases s.len(),
{
    if s.len() == 0 {
        assert(insert_sorted(s, x) =~= s.take(p) + seq![x] + s.skip(p));
    } else if p == s.len() {
        assert(spec_tag_le(s.last(), x));
        assert(insert_sorted(s, x) =~= s.take(p) + seq![x] + s.skip(p));
    } else {
        assert(!spec_tag_le(s.last(), x));
        lemma_insert_sorted_split(s.drop_last(), x, p);
        assert(s.drop_last().take(p) =~= s.take(p));
        assert(s.drop_last().skip(p).push(s.last()) =~= s.skip(p));
        assert(insert_sorted(s.drop_last(), x).push(s.last()) =~= s.take(p) + seq![x] + s.skip(
            p,
        ));
    }
}

/// The sequence is sorted under the boundary-tag order.
pub open spec fn sorted_tags(s: Seq<SpanTag>) -> bool {
    forall|i: int, j: int|
        #![trigger s[i], s[j]]
        0 <= i < j < s.len() ==> spec_tag_le(s[i], s[j])
}

proof fn lemma_insert_sorted_props(s: Seq<SpanTag>, x: SpanTag)
    requires
        sorted_tags(s),
    ensures
        sorted_tags(insert_sorted(s, x)),
        insert_sorted(s, x).to_multiset() == s.to_multiset().insert(x),
        insert_sorted(s, x).len() == s.len() + 1,
    decreases s.len(),
{
    broadcast use vstd::seq_lib::group_to_multiset_ensures;

    if s.len() == 0 {
        assert(insert_sorted(s, x) =~= Seq::<SpanTag>::empty().push(x));
        assert(Seq::<SpanTag>::empty().to_multiset() =~= Multiset::<SpanTag>::empty());
        assert(s.to_multiset() =~= Multiset::<SpanTag>::empty());
    } else if spec_tag_le(s.last(), x) {
        let r = s.push(x);
        assert forall|i: int, j: int|
            #![trigger r[i], r[j]]
            0 <= i < j < r.len() implies spec_tag_le(r[i], r[j]) by {
            if j == s.len() {
                if i < s.len() - 1 {
                    assert(spec_tag_le(s[i], s.last()));
                }
            }
        }
    } else {
        let dl = s.drop_last();
        assert forall|i: int, j: int|
            #![trigger dl[i], dl[j]]
            0 <= i < j < dl.len() implies spec_tag_le(dl[i], dl[j]) by {
            assert(spec_tag_le(s[i], s[j]));
        }
        lemma_insert_sorted_props(dl, x);
        let r0 = insert_sorted(dl, x);
        let r = r0.push(s.last());
        assert forall|i: int, j: int|
            #![trigger r[i], r[j]]
            0 <= i < j < r.len() implies spec_tag_le(r[i], r[j]) by {
            if j == r0.len() {
                // every element of the insertion came from `dl` or is `x`,
                // and both sort no later than the dropped last element
                assert(r0.contains(r0[i]));
                assert(r0.to_multiset().count(r0[i]) > 0);
                if r0[i] == x {
                } else {
                    assert(dl.to_multiset().count(r0[i]) > 0);
                    assert(dl.contains(r0[i]));
                    let k = choose|k: int| 0 <= k < dl.len() && dl[k] == r0[i];
                    assert(spec_tag_le(s[k], s.last()));
                }
            }
        }
        assert(dl.push(s.last()) =~= s);
        assert(s.to_multiset() == dl.to_multiset().insert(s.last()));
        assert(dl.to_multiset().insert(x).insert(s.last()) =~= dl.to_multiset().insert(
            s.last(),
        ).insert(x));
    }
}

/// The sort really sorts: its result is ordered — every closing tag
/// before every opening tag, outer opens before inner — and holds
/// exactly the boundary tags it was given.
pub proof fn lemma_sort_tags_props(s: Seq<SpanTag>)
    ensures
        sorted_tags(spec_sort_tags(s)),
        spec_sort_tags(s).to_multiset() == s.to_multiset(),
        spec_sort_tags(s).len() == s.len(),
    decreases s.len(),
{
    broadcast use vstd::seq_lib::group_to_multiset_ensures;

    if s.len() == 0 {
    } else {
        lemma_sort_tags_props(s.drop_last());
        lemma_insert_sorted_props(spec_sort_tags(s.drop_last()), s.last());
        assert(s.drop_last().push(s.last()) =~= s);
        assert(s.to_multiset() == s.drop_last().to_multiset().insert(s.last()));
    }
}

/// Sort the boundary tags of one position.
pub fn sort_tags(v: &Vec<SpanTag>) -> (r: Vec<SpanTag>)
    ensures
        r@ == spec_sort_tags(v@),
{
    let mut out: Vec<SpanTag> = Vec::new();
    let n = v.len();
    let mut j: usize = 0;
    proof {
        assert(v@.take(0) =~= Seq::<SpanTag>::empty());
    }
    while j < n
        invariant
            n == v.len(),
            j <= n,
            out@ == spec_sort_tags(v@.take(j as int)),
        decreases n - j,
    {
        let x = v[j];
        let mut p = out.len();
        while p > 0 && !tag_le(&out[p - 1], &x)
            invariant
                p <= out.len(),
                forall|k: int| p <= k < out@.len() ==> !spec_tag_le(#[trigger] out@[k], x),
            decreases p,
        {
            p = p - 1;
        }
        let ghost out0 = out@;
        out.insert(p, x);
        j = j + 1;
        proof {
            lemma_insert_sorted_split(out0, x, p as int);
            assert(out@ =~= out0.take(p as int) + seq![x] + out0.skip(p as int));
            assert(v@.take(j as int).drop_last() =~= v@.take(j - 1));
            assert(v@.take(j as int).last() == x);
        }
    }
    proof {
        assert(v@.take(n as int) =~= v@);
    }
    out
}

/// A tag ready for rendering: an opening tag carrying the category
/// and the whole stack of categories open at that point (itself
/// included), or a closing tag.
#[derive(Debug, PartialEq, Eq)]
pub enum SpanTagForRender {
    Start(FragSpecs, Vec<FragSpecs>),
    End,
}

/// Model of a render tag.
pub enum RenderTagModel {
    Start(FragSpecs, Seq<FragSpecs>),
    End,
}

pub open spec fn rtag_model(t: SpanTagForRender) -> RenderTagModel {
    match t {
        SpanTagForRender::Start(f, st) => RenderTagModel::Start(f, st@),
        SpanTagForRender::End => RenderTagModel::End,
    }
}

pub open spec fn rtags_model(s: Seq<SpanTagForRender>) -> Seq<RenderTagModel> {
    s.map_values(|t: SpanTagForRender| rtag_model(t))
}

pub open spec fn rmap_model(m: Seq<Vec<SpanTagForRender>>) -> Seq<Seq<RenderTagModel>> {
    m.map_values(|v: Vec<SpanTagForRender>| rtags_model(v@))
}

/// Every recorded range is well formed (start at or before end).
pub open spec fn ranges_wf(info: Seq<(FragSpecs, Vec<(usize, usize)>)>) -> bool {
    forall|j: int, k: int|
        0 <= j < info.len() && 0 <= k < info[j].1@.len() ==> (#[trigger] info[j].1@[k]).0
            <= info[j].1@[k].1
}

/// The boundary tags one range contributes at position `p`: a start
/// tag carrying the range's length where it opens, a closing tag
/// where it ends; a range ending at zero or past the text is invalid
/// and ignored.
pub open spec fn range_tags_at(f: FragSpecs, r: (usize, usize), len: nat, p: int) -> Seq<SpanTag> {
    if r.1 == 0 || r.1 > len {
        Seq::empty()
    } else {
        (if r.0 == p {
            seq![SpanTag::Start(f, (r.1 - r.0) as usize)]
        } else {
            Seq::empty()
        }) + (if r.1 == p {
            seq![SpanTag::End]
        } else {
            Seq::empty()
        })
    }
}

/// The boundary tags one category's range list contributes at `p`.
pub open spec fn entry_tags_at(
    f: FragSpecs,
    rs: Seq<(usize, usize)>,
    len: nat,
    p: int,
) -> Seq<SpanTag>
    decreases rs.len(),
{
    if rs.len() == 0 {
        Seq::empty()
    } else {
        range_tags_at(f, rs[0], len, p) + entry_tags_at(f, rs.drop_first(), len, p)
    }
}

/// All boundary tags at position `p`, in recording order.
pub open spec fn tags_at(
    info: Seq<(FragSpecs, Vec<(usize, usize)>)>,
    len: nat,
    p: int,
) -> Seq<SpanTag>
    decreases info.len(),
{
    if info.len() == 0 {
        Seq::empty()
    } else {
        entry_tags_at(info[0].0, info[0].1@, len, p) + tags_at(info.drop_first(), len, p)
    }
}

proof fn lemma_entry_tags_push(f: FragSpecs, rs: Seq<(usize, usize)>, r: (usize, usize), len: nat, p: int)
    ensures
        entry_tags_at(f, rs.push(r), len, p) == entry_tags_at(f, rs, len, p) + range_tags_at(
            f,
            r,
            len,
            p,
        ),
    decreases rs.len(),
{
    if rs.len() == 0 {
        assert(rs.push(r).drop_first() =~= Seq::<(usize, usize)>::empty());
        assert(entry_tags_at(f, Seq::<(usize, usize)>::empty(), len, p)
            == Seq::<SpanTag>::empty());
        assert(rs =~= Seq::<(usize, usize)>::empty());
        assert(rs.push(r)[0] == r);
        assert(entry_tags_at(f, rs.push(r), len, p) =~= entry_tags_at(f, rs, len, p)
            + range_tags_at(f, r, len, p));
    } else {
        assert(rs.push(r).drop_first() =~= rs.drop_first().push(r));
        lemma_entry_tags_push(f, rs.drop_first(), r, len, p);
        assert(entry_tags_at(f, rs.push(r), len, p) =~= entry_tags_at(f, rs, len, p)
            + range_tags_at(f, r, len, p));
    }
}

proof fn lemma_tags_at_push(
    info: Seq<(FragSpecs, Vec<(usize, usize)>)>,
    e: (FragSpecs, Vec<(usize, usize)>),
    len: nat,
    p: int,
)
    ensures
        tags_at(info.push(e), len, p) == tags_at(info, len, p) + entry_tags_at(
            e.0,
            e.1@,
            len,
            p,
        ),
    decreases info.len(),
{
    if info.len() == 0 {
        assert(info.push(e).drop_first() =~= Seq::<(FragSpecs, Vec<(usize, usize)>)>::empty());
        assert(tags_at(Seq::<(FragSpecs, Vec<(usize, usize)>)>::empty(), len, p)
            == Seq::<SpanTag>::empty());
        assert(info =~= Seq::<(FragSpecs, Vec<(usize, usize)>)>::empty());
        assert(info.push(e)[0] == e);
        assert(tags_at(info.push(e), len, p) =~= tags_at(info, len, p) + entry_tags_at(
            e.0,
            e.1@,
            len,
            p,
        ));
    } else {
        assert(info.push(e).drop_first() =~= info.drop_first().push(e));
        lemma_tags_at_push(info.drop_first(), e, len, p);
        assert(tags_at(info.push(e), len, p) =~= tags_at(info, len, p) + entry_tags_at(
            e.0,
            e.1@,
            len,
            p,
        ));
    }
}

/// Collect the boundary tags at position `p`, in recording order.
fn tags_at_exec(
    info: &Vec<(FragSpecs, Vec<(usize, usize)>)>,
    len: usize,
    p: usize,
) -> (r: Vec<SpanTag>)
    requires
        ranges_wf(info@),
    ensures
        r@ == tags_at(info@, len as nat, p as int),
{
    let mut row: Vec<SpanTag> = Vec::new();
    let nj = info.len();
    let mut j: usize = 0;
    proof {
        assert(info@.take(0) =~= Seq::<(FragSpecs, Vec<(usize, usize)>)>::empty());
    }
    while j < nj
        invariant
            nj == info@.len(),
            j <= nj,
            ranges_wf(info@),
            row@ == tags_at(info@.take(j as int), len as nat, p as int),
        decreases nj - j,
    {
        let f = info[j].0;
        let rs = &info[j].1;
        let nk = rs.len();
        let mut k: usize = 0;
        let ghost row0 = row@;
        proof {
            assert(rs@.take(0) =~= Seq::<(usize, usize)>::empty());
        }
        while k < nk
            invariant
                nk == rs@.len(),
                k <= nk,
                f == info@[j as int].0,
                rs@ == info@[j as int].1@,
                j < info@.len(),
                ranges_wf(info@),
                row@ == row0 + entry_tags_at(f, rs@.take(k as int), len as nat, p as int),
            decreases nk - k,
        {
            let (s, e) = rs[k];
            proof {
                assert(info@[j as int].1@[k as int] == (s, e));
                assert(s <= e);
                assert(rs@.take(k + 1) =~= rs@.take(k as int).push((s, e)));
                lemma_entry_tags_push(f, rs@.take(k as int), (s, e), len as nat, p as int);
            }
            if e != 0 && e <= len {
                if s == p {
                    row.push(SpanTag::Start(f, e - s));
                }
                if e == p {
                    row.push(SpanTag::End);
                }
            }
            k = k + 1;
            proof {
                assert(row@ =~= row0 + entry_tags_at(f, rs@.take(k as int), len as nat, p as int));
            }
        }
        j = j + 1;
        proof {
            assert(rs@.take(nk as int) =~= rs@);
            assert(info@.take(j as int) =~= info@.take(j - 1).push(info@[j - 1]));
            lemma_tags_at_push(info@.take(j - 1), info@[j - 1], len as nat, p as int);
        }
    }
    proof {
        assert(info@.take(nj as int) =~= info@);
    }
    row
}

/// The render tags one position's sorted boundary tags produce, and
/// the stack of open categories afterwards: a closing boundary pops
/// the innermost open category and emits a closing tag; an opening
/// boundary pushes its category and emits an opening tag carrying
/// the whole stack.
pub open spec fn render_pos(tags: Seq<SpanTag>, st: Seq<FragSpecs>) -> (
    Seq<RenderTagModel>,
    Seq<FragSpecs>,
)
    decreases tags.len(),
{
    if tags.len() == 0 {
        (Seq::empty(), st)
    } else {
        match tags[0] {
            SpanTag::End => {
                let st1 = if st.len() > 0 {
                    st.drop_last()
                } else {
                    st
                };
                let rest = render_pos(tags.drop_first(), st1);
                (seq![RenderTagModel::End] + rest.0, rest.1)
            },
            SpanTag::Start(f, _) => {
                let st1 = st.push(f);
                let rest = render_pos(tags.drop_first(), st1);
                (seq![RenderTagModel::Start(f, st1)] + rest.0, rest.1)
            },
        }
    }
}

/// The render tags of every position in turn, the stack carried
/// across positions.
pub open spec fn render_all(m: Seq<Seq<SpanTag>>, st: Seq<FragSpecs>) -> (
    Seq<Seq<RenderTagModel>>,
    Seq<FragSpecs>,
)
    decreases m.len(),
{
    if m.len() == 0 {
        (Seq::empty(), st)
    } else {
        let head = render_pos(m[0], st);
        let rest = render_all(m.drop_first(), head.1);
        (seq![head.0] + rest.0, rest.1)
    }
}

/// The sorted boundary tags of every position `0 ..= len`.
pub open spec fn sorted_tag_map(info: Seq<(FragSpecs, Vec<(usize, usize)>)>, len: nat) -> Seq<
    Seq<SpanTag>,
> {
    Seq::new(len + 1, |p: int| spec_sort_tags(tags_at(info, len, p)))
}

/// What `span_tag_map` computes: the render tags of every position,
/// starting from an empty stack.
pub open spec fn spec_span_tag_map(
    info: Seq<(FragSpecs, Vec<(usize, usize)>)>,
    len: nat,
) -> Seq<Seq<RenderTagModel>> {
    render_all(sorted_tag_map(info, len), Seq::empty()).0
}

fn clone_frags(v: &Vec<FragSpecs>) -> (r: Vec<FragSpecs>)
    ensures
        r@ == v@,
{
    let mut out: Vec<FragSpecs> = Vec::new();
    let n = v.len();
    let mut j: usize = 0;
    while j < n
        invariant
            n == v.len(),
            j <= n,
            out@ == v@.take(j as int),
        decreases n - j,
    {
        out.push(v[j]);
        proof {
            assert(v@.take(j + 1) =~= v@.take(j as int).push(v@[j as int]));
        }
        j = j + 1;
    }
    proof {
        assert(v@.take(n as int) =~= v@);
    }
    out
}

/// Build the per-position render tags for a text of `len` bytes:
/// collect each position's range boundaries, sort them so closing
/// tags come first and outer ranges open first, and thread the stack
/// of open categories through all positions.
pub fn span_tag_map(
    len: usize,
    ranges: &Vec<(FragSpecs, Vec<(usize, usize)>)>,
) -> (r: Vec<Vec<SpanTagForRender>>)
    requires
        ranges_wf(ranges@),
        len < usize::MAX,
    ensures
        r@.len() == len + 1,
        rmap_model(r@) == spec_span_tag_map(ranges@, len as nat),
{
    let ghost smap = sorted_tag_map(ranges@, len as nat);
    let mut out: Vec<Vec<SpanTagForRender>> = Vec::new();
    let mut stack: Vec<FragSpecs> = Vec::new();
    let mut p: usize = 0;
    proof {
        assert(smap.skip(0) =~= smap);
        assert(rmap_model(out@) + render_all(smap, Seq::empty()).0 =~= render_all(
            smap,
            Seq::empty(),
        ).0);
    }
    while p < len + 1
        invariant
            len < usize::MAX,
            p <= len + 1,
            ranges_wf(ranges@),
            smap == sorted_tag_map(ranges@, len as nat),
            out@.len() == p,
            render_all(smap, Seq::empty()).0 == rmap_model(out@) + render_all(
                smap.skip(p as int),
                stack@,
            ).0,
        decreases len + 1 - p,
    {
        let row = tags_at_exec(ranges, len, p);
        let sorted = sort_tags(&row);
        proof {
            assert(smap.skip(p as int)[0] == smap[p as int]);
            assert(sorted@ == smap[p as int]);
        }
        let ghost st_in = stack@;
        let mut rowout: Vec<SpanTagForRender> = Vec::new();
        let nt = sorted.len();
        let mut t: usize = 0;
        proof {
            assert(sorted@.skip(0) =~= sorted@);
        }
        while t < nt
            invariant
                nt == sorted@.len(),
                t <= nt,
                render_pos(sorted@, st_in) == (
                    rtags_model(rowout@) + render_pos(sorted@.skip(t as int), stack@).0,
                    render_pos(sorted@.skip(t as int), stack@).1,
                ),
            decreases nt - t,
        {
            let ghost s_rem = sorted@.skip(t as int);
            proof {
                assert(s_rem[0] == sorted@[t as int]);
                assert(s_rem.drop_first() =~= sorted@.skip(t + 1));
            }
            let ghost rowout0 = rowout@;
            let ghost st0 = stack@;
            match sorted[t] {
                SpanTag::End => {
                    stack.pop();
                    rowout.push(SpanTagForRender::End);
                    proof {
                        if st0.len() > 0 {
                            assert(stack@ =~= st0.drop_last());
                        } else {
                            assert(stack@ =~= st0);
                        }
                        assert(rtags_model(rowout@) =~= rtags_model(rowout0) + seq![
                            RenderTagModel::End,
                        ]);
                    }
                },
                SpanTag::Start(f, _) => {
                    stack.push(f);
                    let snapshot = clone_frags(&stack);
                    rowout.push(SpanTagForRender::Start(f, snapshot));
                    proof {
                        assert(rtags_model(rowout@) =~= rtags_model(rowout0) + seq![
                            RenderTagModel::Start(f, st0.push(f)),
                        ]);
                    }
                },
            }
            t = t + 1;
            proof {
                assert((rtags_model(rowout0) + (rtags_model(rowout@).skip(
                    rowout0.len() as int,
                ) + render_pos(sorted@.skip(t as int), stack@).0)) =~= (rtags_model(rowout@)
                    + render_pos(sorted@.skip(t as int), stack@).0));
            }
        }
        proof {
            assert(sorted@.skip(nt as int) =~= Seq::<SpanTag>::empty());
            assert(rtags_model(rowout@) + Seq::<RenderTagModel>::empty() =~= rtags_model(
                rowout@,
            ));
        }
        out.push(rowout);
        p = p + 1;
        proof {
            assert(smap.skip(p - 1).drop_first() =~= smap.skip(p as int));
            assert(rmap_model(out@) =~= rmap_model(out@.drop_last()) + seq![
                rtags_model(out@.last()@),
            ]);
            assert((rmap_model(out@.drop_last()) + seq![rtags_model(out@.last()@)])
                + render_all(smap.skip(p as int), stack@).0 =~= rmap_model(out@.drop_last())
                + (seq![rtags_model(out@.last()@)] + render_all(smap.skip(p as int), stack@).0));
        }
    }
    proof {
        assert(smap.skip(len + 1) =~= Seq::<Seq<SpanTag>>::empty());
        assert(rmap_model(out@) + Seq::<Seq<RenderTagModel>>::empty() =~= rmap_model(out@));
    }
    out
}

/// Text-level escaping of one character, as HTML text content.
pub open spec fn spec_escape_char(c: char) -> Seq<char> {
    if c == '&' {
        "&amp;"@
    } else if c == '<' {
        "&lt;"@
    } else if c == '>' {
        "&gt;"@
    } else {
        seq![c]
    }
}

/// Relies on html_escape::encode_text: it replaces `&` with `&amp;`,
/// `<` with `&lt;` and `>` with `&gt;`, and keeps every other
/// character unchanged.
#[verifier::external_body]
fn escape_char(c: char) -> (r: String)
    ensures
        r@ == spec_escape_char(c),
{
    let s = c.to_string();
    html_escape::encode_text(&s).into_owned()
}

/// The class list of an opening tag: the open categories' names,
/// outermost first, separated by single spaces.
pub open spec fn class_list(st: Seq<FragSpecs>) -> Seq<char>
    decreases st.len(),
{
    if st.len() == 0 {
        Seq::empty()
    } else if st.len() == 1 {
        st[0].spec_name()
    } else {
        st[0].spec_name() + " "@ + class_list(st.drop_first())
    }
}

proof fn lemma_class_list_push(st: Seq<FragSpecs>, f: FragSpecs)
    ensures
        class_list(st.push(f)) == (if st.len() == 0 {
            f.spec_name()
        } else {
            class_list(st) + " "@ + f.spec_name()
        }),
    decreases st.len(),
{
    if st.len() == 0 {
        assert(st.push(f)[0] == f);
    } else {
        assert(st.push(f).drop_first() =~= st.drop_first().push(f));
        lemma_class_list_push(st.drop_first(), f);
        if st.len() == 1 {
            assert(class_list(st.push(f)) =~= class_list(st) + " "@ + f.spec_name());
        } else {
            assert(class_list(st.push(f)) =~= class_list(st) + " "@ + f.spec_name());
        }
    }
}

/// The class list as text.
fn class_text(st: &Vec<FragSpecs>) -> (r: String)
    ensures
        r@ == class_list(st@),
{
    let mut out = String::new();
    let n = st.len();
    let mut j: usize = 0;
    proof {
        assert(st@.take(0) =~= Seq::<FragSpecs>::empty());
    }
    while j < n
        invariant
            n == st.len(),
            j <= n,
            out@ == class_list(st@.take(j as int)),
        decreases n - j,
    {
        if j > 0 {
            out.append(" ");
        }
        out.append(st[j].name());
        j = j + 1;
        proof {
            assert(st@.take(j as int) =~= st@.take(j - 1).push(st@[j - 1]));
            lemma_class_list_push(st@.take(j - 1), st@[j - 1]);
        }
    }
    proof {
        assert(st@.take(n as int) =~= st@);
    }
    out
}

/// The markup text of one render tag.
pub open spec fn rtag_text(t: RenderTagModel) -> Seq<char> {
    match t {
        RenderTagModel::End => "</span>"@,
        RenderTagModel::Start(f, st) => "<span data-frag=\""@ + f.spec_name() + "\" class=\""@
            + class_list(st) + "\">"@,
    }
}

/// The markup text of a position's render tags, in order.
pub open spec fn rtags_text(ts: Seq<RenderTagModel>) -> Seq<char>
    decreases ts.len(),
{
    if ts.len() == 0 {
        Seq::empty()
    } else {
        rtag_text(ts[0]) + rtags_text(ts.drop_first())
    }
}

/// The markup text of the closing tags only; opening tags at the end
/// of the text are not emitted.
pub open spec fn closing_text(ts: Seq<RenderTagModel>) -> Seq<char>
    decreases ts.len(),
{
    if ts.len() == 0 {
        Seq::empty()
    } else {
        (if ts[0] is End {
            "</span>"@
        } else {
            Seq::empty()
        }) + closing_text(ts.drop_first())
    }
}

/// The body markup: each character's tags, then the character
/// escaped.
pub open spec fn spec_html_body(
    chars: Seq<(usize, char)>,
    map: Seq<Seq<RenderTagModel>>,
) -> Seq<char>
    decreases chars.len(),
{
    if chars.len() == 0 {
        Seq::empty()
    } else {
        rtags_text(map[chars[0].0 as int]) + spec_escape_char(chars[0].1) + spec_html_body(
            chars.drop_first(),
            map,
        )
    }
}

/// The whole markup: the body, then the closing tags still open at
/// the end of the text.
pub open spec fn spec_to_html(chars: Seq<(usize, char)>, map: Seq<Seq<RenderTagModel>>) -> Seq<
    char,
> {
    spec_html_body(chars, map) + closing_text(map.last())
}

/// Append the markup of one position's render tags.
fn append_tags(out: &mut String, row: &Vec<SpanTagForRender>)
    ensures
        final(out)@ == old(out)@ + rtags_text(rtags_model(row@)),
{
    let ghost rowm = rtags_model(row@);
    let ghost base = out@;
    let n = row.len();
    let mut t: usize = 0;
    proof {
        assert(rowm.skip(0) =~= rowm);
    }
    while t < n
        invariant
            n == row.len(),
            t <= n,
            rowm == rtags_model(row@),
            out@ + rtags_text(rowm.skip(t as int)) == base + rtags_text(rowm),
        decreases n - t,
    {
        let ghost srem = rowm.skip(t as int);
        proof {
            assert(srem[0] == rowm[t as int]);
            assert(srem.drop_first() =~= rowm.skip(t + 1));
        }
        let ghost before = out@;
        match &row[t] {
            SpanTagForRender::End => {
                out.append("</span>");
            },
            SpanTagForRender::Start(f, st) => {
                out.append("<span data-frag=\"");
                out.append(f.name());
                out.append("\" class=\"");
                let cls = class_text(st);
                out.append(cls.as_str());
                out.append("\">");
            },
        }
        t = t + 1;
        proof {
            assert(out@ =~= before + rtag_text(rowm[t - 1]));
            assert(before + (rtag_text(rowm[t - 1]) + rtags_text(rowm.skip(t as int))) =~= (
            before + rtag_text(rowm[t - 1])) + rtags_text(rowm.skip(t as int)));
        }
    }
    proof {
        assert(rowm.skip(n as int) =~= Seq::<RenderTagModel>::empty());
        assert(out@ + Seq::<char>::empty() =~= out@);
    }
}

/// Render the highlighted text as nested HTML: before each character
/// the tags of its byte position, each character escaped as text, and
/// at the end the closing tags of the ranges still open.
pub fn to_html_string(
    chars: &Vec<(usize, char)>,
    map: &Vec<Vec<SpanTagForRender>>,
) -> (r: String)
    requires
        map@.len() > 0,
        forall|j: int| 0 <= j < chars@.len() ==> (#[trigger] chars@[j]).0 < map@.len(),
    ensures
        r@ == spec_to_html(chars@, rmap_model(map@)),
{
    let ghost mm = rmap_model(map@);
    let mut out = String::new();
    let n = chars.len();
    let mut j: usize = 0;
    proof {
        assert(chars@.skip(0) =~= chars@);
        assert(out@ =~= Seq::<char>::empty());
    }
    while j < n
        invariant
            n == chars.len(),
            mm == rmap_model(map@),
            map@.len() > 0,
            j <= n,
            forall|k: int| 0 <= k < chars@.len() ==> (#[trigger] chars@[k]).0 < map@.len(),
            out@ + spec_html_body(chars@.skip(j as int), mm) == spec_html_body(chars@, mm),
        decreases n - j,
    {
        let ghost srem = chars@.skip(j as int);
        proof {
            assert(srem[0] == chars@[j as int]);
            assert(srem.drop_first() =~= chars@.skip(j + 1));
        }
        let (idx, c) = chars[j];
        let ghost before = out@;
        append_tags(&mut out, &map[idx]);
        let esc = escape_char(c);
        out.append(esc.as_str());
        j = j + 1;
        proof {
            assert(mm[idx as int] == rtags_model(map@[idx as int]@));
            assert(out@ =~= before + (rtags_text(mm[idx as int]) + spec_escape_char(c)));
            assert(before + ((rtags_text(mm[idx as int]) + spec_escape_char(c))
                + spec_html_body(chars@.skip(j as int), mm)) =~= (before + (rtags_text(
                mm[idx as int],
            ) + spec_escape_char(c))) + spec_html_body(chars@.skip(j as int), mm));
        }
    }
    proof {
        assert(chars@.skip(n as int) =~= Seq::<(usize, char)>::empty());
        assert(out@ + Seq::<char>::empty() =~= out@);
        assert(out@ == spec_html_body(chars@, mm));
    }
    let last = map.len() - 1;
    let ghost base2 = out@;
    let row = &map[last];
    let ghost rowm = rtags_model(row@);
    let nt = row.len();
    let mut t: usize = 0;
    proof {
        assert(rowm.skip(0) =~= rowm);
        assert(mm.last() == rowm);
    }
    while t < nt
        invariant
            nt == row@.len(),
            t <= nt,
            rowm == rtags_model(row@),
            out@ + closing_text(rowm.skip(t as int)) == base2 + closing_text(rowm),
        decreases nt - t,
    {
        let ghost srem = rowm.skip(t as int);
        proof {
            assert(srem[0] == rowm[t as int]);
            assert(srem.drop_first() =~= rowm.skip(t + 1));
        }
        let ghost before = out@;
        match &row[t] {
            SpanTagForRender::End => {
                out.append("</span>");
            },
            SpanTagForRender::Start(..) => {},
        }
        t = t + 1;
        proof {
            let head = if rowm[t - 1] is End {
                "</span>"@
            } else {
                Seq::<char>::empty()
            };
            assert(out@ =~= before + head);
            assert(before + (head + closing_text(rowm.skip(t as int))) =~= (before + head)
                + closing_text(rowm.skip(t as int)));
        }
    }
    proof {
        assert(rowm.skip(nt as int) =~= Seq::<RenderTagModel>::empty());
        assert(out@ + Seq::<char>::empty() =~= out@);
    }
    out
}

} // verus!
