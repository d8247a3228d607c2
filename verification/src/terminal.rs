//! The terminal colouring pass: which grammar category styles each
//! byte of the source text, under an include or exclude filter, with
//! later categories of the fixed painting order overwriting earlier
//! ones and line breaks left unstyled.

use vstd::prelude::*;

use crate::frag::{FragSpecs, ordered_frags, spec_ordered_frags};

verus! {

/// The command-line filter as given: at most one of the two lists.
#[derive(Debug, PartialEq, Eq)]
pub struct IncludeExclude {
    pub exclude_frags: Option<Vec<FragSpecs>>,
    pub include_frags: Option<Vec<FragSpecs>>,
}

/// The resolved filter: paint only the listed categories, or paint
/// all but the listed categories.
#[derive(Debug, PartialEq, Eq)]
pub enum Mode {
    Include(Vec<FragSpecs>),
    Exclude(Vec<FragSpecs>),
}

impl Mode {
    /// Whether the filter selects the category for painting.
    pub open spec fn spec_selects(&self, f: FragSpecs) -> bool {
        match self {
            Mode::Include(v) => v@.contains(f),
            Mode::Exclude(v) => !v@.contains(f),
        }
    }

    pub fn selects(&self, f: FragSpecs) -> (r: bool)
        ensures
            r == self.spec_selects(f),
    {
        match self {
            Mode::Include(v) => contains_frag(v, f),
            Mode::Exclude(v) => !contains_frag(v, f),
        }
    }
}

fn contains_frag(v: &Vec<FragSpecs>, f: FragSpecs) -> (r: bool)
    ensures
        r == v@.contains(f),
{
    let n = v.len();
    let mut j: usize = 0;
    while j < n
        invariant
            n == v.len(),
            j <= n,
            forall|k: int| #![trigger v@[k]] 0 <= k < j ==> v@[k] != f,
        decreases n - j,
    {
        if v[j] == f {
            return true;
        }
        j = j + 1;
    }
    false
}

impl IncludeExclude {
    /// Resolve the filter: an exclude list excludes, an include list
    /// includes, and anything else (neither or both) excludes
    /// nothing.
    pub fn into_mode(self) -> (r: Mode)
        ensures
            (self.exclude_frags is Some && self.include_frags is None) ==> (r matches
                Mode::Exclude(v) && v@ == self.exclude_frags->Some_0@),
            (self.exclude_frags is None && self.include_frags is Some) ==> (r matches
                Mode::Include(v) && v@ == self.include_frags->Some_0@),
            !((self.exclude_frags is Some && self.include_frags is None) || (self.exclude_frags
                is None && self.include_frags is Some)) ==> (r matches Mode::Exclude(v) && v@
                == Seq::<FragSpecs>::empty()),
    {
        match (self.exclude_frags, self.include_frags) {
            (Some(exclude_frags), None) => Mode::Exclude(exclude_frags),
            (None, Some(include_frags)) => Mode::Include(include_frags),
            _ => Mode::Exclude(Vec::new()),
        }
    }
}

/// The ranges recorded for category `f`: those of the first entry of
/// the association list that carries `f`, as the collector records
/// each category once.
pub open spec fn lookup_ranges(
    info: Seq<(FragSpecs, Vec<(usize, usize)>)>,
    f: FragSpecs,
) -> Option<Seq<(usize, usize)>>
    decreases info.len(),
{
    if info.len() == 0 {
        None
    } else if info[0].0 == f {
        Some(info[0].1@)
    } else {
        lookup_ranges(info.drop_first(), f)
    }
}

/// Byte `i` lies in one of the ranges `rs`.
pub open spec fn in_ranges(rs: Seq<(usize, usize)>, i: int) -> bool {
    exists|k: int| 0 <= k < rs.len() && (#[trigger] rs[k]).0 <= i < rs[k].1
}

/// Byte `i` lies in one of the ranges recorded for category `f`.
pub open spec fn covered(info: Seq<(FragSpecs, Vec<(usize, usize)>)>, f: FragSpecs, i: int) -> bool {
    match lookup_ranges(info, f) {
        None => false,
        Some(rs) => in_ranges(rs, i),
    }
}

/// The category that styles byte `i` after the first `k` categories
/// of the painting order have been painted: the last selected one
/// whose ranges cover `i`.
pub open spec fn choose_frag(
    info: Seq<(FragSpecs, Vec<(usize, usize)>)>,
    mode: &Mode,
    i: int,
    k: int,
) -> Option<FragSpecs>
    decreases k,
{
    if k <= 0 {
        None
    } else {
        let f = spec_ordered_frags()[k - 1];
        if mode.spec_selects(f) && covered(info, f, i) {
            Some(f)
        } else {
            choose_frag(info, mode, i, k - 1)
        }
    }
}

/// Every recorded range ends within the text and is well formed.
pub open spec fn ranges_within(info: Seq<(FragSpecs, Vec<(usize, usize)>)>, len: nat) -> bool {
    forall|j: int, k: int|
        0 <= j < info.len() && 0 <= k < info[j].1@.len() ==> (#[trigger] info[j].1@[k]).0
            <= info[j].1@[k].1 <= len
}

/// Find the first entry recording category `f`.
fn lookup_index(info: &Vec<(FragSpecs, Vec<(usize, usize)>)>, f: FragSpecs) -> (r: Option<usize>)
    ensures
        (match r {
            Some(j) => j < info@.len() && info@[j as int].0 == f && lookup_ranges(info@, f)
                == Some(info@[j as int].1@),
            None => lookup_ranges(info@, f) is None,
        }),
{
    let n = info.len();
    let mut j: usize = 0;
    proof {
        assert(info@.skip(0) =~= info@);
    }
    while j < n
        invariant
            n == info.len(),
            j <= n,
            lookup_ranges(info@, f) == lookup_ranges(info@.skip(j as int), f),
            forall|k: int| #![trigger info@[k]] 0 <= k < j ==> info@[k].0 != f,
        decreases n - j,
    {
        proof {
            assert(info@.skip(j as int)[0] == info@[j as int]);
        }
        if info[j].0 == f {
            return Some(j);
        }
        proof {
            assert(info@.skip(j as int).drop_first() =~= info@.skip(j as int + 1));
        }
        j = j + 1;
    }
    proof {
        assert(info@.skip(n as int) =~= Seq::<(FragSpecs, Vec<(usize, usize)>)>::empty());
    }
    None
}

/// Decide, byte by byte, which category styles the text: the
/// categories are painted in the fixed order, each selected category
/// overwriting the styles of the bytes its ranges cover, and bytes
/// holding a line break stay unstyled.
pub fn colored_content(
    content: &Vec<u8>,
    range_info: &Vec<(FragSpecs, Vec<(usize, usize)>)>,
    mode: &Mode,
) -> (r: Vec<Option<FragSpecs>>)
    requires
        ranges_within(range_info@, content@.len()),
    ensures
        r@.len() == content@.len(),
        forall|i: int|
            0 <= i < r@.len() ==> r@[i] == (if content@[i] == 10u8 {
                None::<FragSpecs>
            } else {
                choose_frag(range_info@, mode, i, 12)
            }),
{
    let len = content.len();
    let mut styles: Vec<Option<FragSpecs>> = Vec::new();
    while styles.len() < len
        invariant
            styles@.len() <= len,
            forall|i: int| 0 <= i < styles@.len() ==> styles@[i] == None::<FragSpecs>,
        decreases len - styles@.len(),
    {
        styles.push(None);
    }
    let order = ordered_frags();
    let nf = order.len();
    let mut fi: usize = 0;
    while fi < nf
        invariant
            nf == 12,
            order@ == spec_ordered_frags(),
            fi <= nf,
            styles@.len() == len,
            len == content@.len(),
            ranges_within(range_info@, content@.len()),
            forall|i: int|
                0 <= i < len ==> styles@[i] == choose_frag(range_info@, mode, i, fi as int),
        decreases nf - fi,
    {
        let f = order[fi];
        let ghost prev = styles@;
        if mode.selects(f) {
            match lookup_index(range_info, f) {
                Some(ei) => {
                    let ranges = &range_info[ei].1;
                    let ghost rs = ranges@;
                    let nr = ranges.len();
                    let mut m: usize = 0;
                    while m < nr
                        invariant
                            nr == ranges@.len(),
                            rs == ranges@,
                            m <= nr,
                            styles@.len() == len,
                            len == content@.len(),
                            lookup_ranges(range_info@, f) == Some(rs),
                            mode.spec_selects(f),
                            forall|i: int|
                                0 <= i < len ==> prev[i] == choose_frag(
                                    range_info@,
                                    mode,
                                    i,
                                    fi as int,
                                ),
                            f == spec_ordered_frags()[fi as int],
                            forall|q: int|
                                0 <= q < len ==> styles@[q] == (if exists|k: int|
                                    0 <= k < m && (#[trigger] rs[k]).0 <= q < rs[k].1 {
                                    Some(f)
                                } else {
                                    prev[q]
                                }),
                            forall|k: int|
                                0 <= k < rs.len() ==> (#[trigger] rs[k]).0 <= rs[k].1 <= len,
                        decreases nr - m,
                    {
                        let (lo, hi) = ranges[m];
                        let mut q = lo;
                        while q < hi
                            invariant
                                lo == rs[m as int].0,
                                hi == rs[m as int].1,
                                m < nr,
                                nr == ranges@.len(),
                                rs == ranges@,
                                lo <= q <= hi <= len,
                                styles@.len() == len,
                                forall|p: int|
                                    0 <= p < len ==> styles@[p] == (if (exists|k: int|
                                        0 <= k < m && (#[trigger] rs[k]).0 <= p < rs[k].1) || (
                                    lo <= p < q) {
                                        Some(f)
                                    } else {
                                        prev[p]
                                    }),
                            decreases hi - q,
                        {
                            styles.set(q, Some(f));
                            q = q + 1;
                        }
                        m = m + 1;
                        proof {
                            assert forall|p: int| 0 <= p < len implies styles@[p] == (if exists|
                            k: int|
                                0 <= k < m && (#[trigger] rs[k]).0 <= p < rs[k].1 {
                                Some(f)
                            } else {
                                prev[p]
                            }) by {
                                if exists|k: int|
                                    0 <= k < m && (#[trigger] rs[k]).0 <= p < rs[k].1 {
                                    let k = choose|k: int|
                                        0 <= k < m && (#[trigger] rs[k]).0 <= p < rs[k].1;
                                    if k < m - 1 {
                                        assert(exists|k2: int|
                                            0 <= k2 < m - 1 && (#[trigger] rs[k2]).0 <= p
                                                < rs[k2].1);
                                    }
                                }
                            }
                        }
                    }
                    proof {
                        assert forall|i: int| 0 <= i < len implies styles@[i] == choose_frag(
                            range_info@,
                            mode,
                            i,
                            fi + 1,
                        ) by {
                            assert(lookup_ranges(range_info@, f) == Some(rs));
                            assert(covered(range_info@, f, i) == in_ranges(rs, i));
                            assert(in_ranges(rs, i) == exists|k: int|
                                0 <= k < rs.len() && (#[trigger] rs[k]).0 <= i < rs[k].1);
                        }
                    }
                },
                None => {
                    proof {
                        assert forall|i: int| 0 <= i < len implies styles@[i] == choose_frag(
                            range_info@,
                            mode,
                            i,
                            fi + 1,
                        ) by {
                            assert(!covered(range_info@, f, i));
                        }
                    }
                },
            }
        } else {
            proof {
                assert forall|i: int| 0 <= i < len implies styles@[i] == choose_frag(
                    range_info@,
                    mode,
                    i,
                    fi + 1,
                ) by {}
            }
        }
        fi = fi + 1;
    }
    let mut i: usize = 0;
    while i < len
        invariant
            styles@.len() == len,
            len == content@.len(),
            forall|p: int|
                i <= p < len ==> styles@[p] == choose_frag(range_info@, mode, p, 12),
            forall|p: int|
                0 <= p < i ==> styles@[p] == (if content@[p] == 10u8 {
                    None::<FragSpecs>
                } else {
                    choose_frag(range_info@, mode, p, 12)
                }),
        decreases len - i,
    {
        if content[i] == 10u8 {
            styles.set(i, None);
        }
        i = i + 1;
    }
    styles
}

} // verus!
