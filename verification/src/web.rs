//! The browser front end's decision logic: try the requested grammar
//! filters in order against the parse outcomes, render the first one
//! that parsed, and report every filter that parsed.

use vstd::prelude::*;
use vstd::string::StringExecFns;

use crate::frag::FragSpecs;
use crate::html::{ranges_wf, rmap_model, spec_span_tag_map, spec_to_html, span_tag_map, to_html_string};

verus! {

/// One grammar category the caller may ask to parse the text as.
#[derive(Clone, Copy, Debug, PartialEq, Eq, Structural)]
pub enum Filter {
    File,
    Item,
    Block,
    Stmt,
    Expr,
    Type,
    Path,
    Visibility,
    Ident,
    Lifetime,
    Lit,
    Meta,
}

/// The front end's answer: the filter whose rendering is shown, every
/// filter that parsed, and the rendered markup (or the collected
/// parse errors when nothing parsed).
#[derive(Debug, PartialEq, Eq)]
pub struct Output {
    pub hit_top_filter: Option<Filter>,
    pub hit_filters: Vec<Filter>,
    pub colored: String,
}

/// The ranges recorded when a filter's parse succeeded, or the
/// diagnostic text when it failed.
pub type FilterOutcome = Result<Vec<(FragSpecs, Vec<(usize, usize)>)>, String>;

/// Index of the first successful outcome, or the length if none.
pub open spec fn first_ok(s: Seq<FilterOutcome>) -> int
    decreases s.len(),
{
    if s.len() == 0 {
        0
    } else if s[0] is Ok {
        0
    } else {
        1 + first_ok(s.drop_first())
    }
}

pub proof fn lemma_first_ok(s: Seq<FilterOutcome>)
    ensures
        0 <= first_ok(s) <= s.len(),
        first_ok(s) < s.len() ==> s[first_ok(s)] is Ok,
        forall|k: int| #![trigger s[k]] 0 <= k < first_ok(s) ==> s[k] is Err,
    decreases s.len(),
{
    if s.len() > 0 {
        lemma_first_ok(s.drop_first());
        assert forall|k: int| #![trigger s[k]] 0 <= k < first_ok(s) implies s[k] is Err by {
            if k > 0 {
                assert(s[k] == s.drop_first()[k - 1]);
            }
        }
    }
}

/// The filters whose outcome succeeded, in order.
pub open spec fn ok_filters(fs: Seq<Filter>, rs: Seq<FilterOutcome>) -> Seq<Filter>
    decreases fs.len(),
{
    if fs.len() == 0 || rs.len() == 0 {
        Seq::empty()
    } else {
        (if rs[0] is Ok {
            seq![fs[0]]
        } else {
            Seq::<Filter>::empty()
        }) + ok_filters(fs.drop_first(), rs.drop_first())
    }
}

/// The failing outcomes' diagnostic texts, concatenated in order.
pub open spec fn errors_text(rs: Seq<FilterOutcome>) -> Seq<char>
    decreases rs.len(),
{
    if rs.len() == 0 {
        Seq::empty()
    } else {
        (match rs[0] {
            Err(e) => e@,
            Ok(_) => Seq::<char>::empty(),
        }) + errors_text(rs.drop_first())
    }
}

/// All successful outcomes carry well-formed ranges.
pub open spec fn outcomes_wf(rs: Seq<FilterOutcome>) -> bool {
    forall|j: int|
        0 <= j < rs.len() ==> match #[trigger] rs[j] {
            Ok(ri) => ranges_wf(ri@),
            Err(_) => true,
        }
}

/// The index of the first successful outcome, if any: the outcome
/// whose rendering is shown.
pub fn first_hit(results: &Vec<FilterOutcome>) -> (r: Option<usize>)
    ensures
        (match r {
            Some(i) => i as int == first_ok(results@) && (i as int) < results@.len(),
            None => first_ok(results@) == results@.len(),
        }),
{
    let n = results.len();
    let mut j: usize = 0;
    while j < n
        invariant
            n == results@.len(),
            j <= n,
            forall|k: int| #![trigger results@[k]] 0 <= k < j ==> results@[k] is Err,
        decreases n - j,
    {
        let ok = match &results[j] {
            Ok(_) => true,
            Err(_) => false,
        };
        if ok {
            proof {
                lemma_first_ok(results@);
                if first_ok(results@) < j {
                    assert(results@[first_ok(results@)] is Err);
                }
                if first_ok(results@) > j {
                    assert(results@[j as int] is Err);
                }
            }
            return Some(j);
        }
        j = j + 1;
    }
    proof {
        lemma_first_ok(results@);
        if first_ok(results@) < n as int {
            assert(results@[first_ok(results@)] is Err);
        }
    }
    None
}

/// Decide the front end's whole answer from the per-filter parse
/// outcomes: the first filter that parsed is rendered as nested HTML
/// markup over the text's characters; every filter that parsed is
/// reported; if none parsed, the collected diagnostics stand in for
/// the markup.
pub fn colored_inner(
    filters: &Vec<Filter>,
    results: &Vec<FilterOutcome>,
    chars: &Vec<(usize, char)>,
    len: usize,
) -> (r: Output)
    requires
        results@.len() == filters@.len(),
        len < usize::MAX,
        outcomes_wf(results@),
        forall|k: int| 0 <= k < chars@.len() ==> (#[trigger] chars@[k]).0 <= len,
    ensures
        first_ok(results@) == results@.len() ==> r.hit_top_filter is None
            && r.hit_filters@ == Seq::<Filter>::empty() && r.colored@ == errors_text(results@),
        first_ok(results@) < results@.len() ==> r.hit_top_filter == Some(
            filters@[first_ok(results@)],
        ) && r.hit_filters@ == ok_filters(filters@, results@) && r.colored@ == spec_to_html(
            chars@,
            spec_span_tag_map(results@[first_ok(results@)]->Ok_0@, len as nat),
        ),
{
    let n = filters.len();
    let mut top_idx: Option<usize> = None;
    let mut errors = String::new();
    let mut j: usize = 0;
    proof {
        lemma_first_ok(results@);
        assert(results@.skip(0) =~= results@);
        assert(errors@ =~= Seq::<char>::empty());
    }
    while j < n
        invariant
            n == results@.len(),
            j <= n,
            (match top_idx {
                Some(ti) => ti == first_ok(results@) && ti < j && results@[ti as int] is Ok,
                None => j <= first_ok(results@),
            }),
            errors@ + errors_text(results@.skip(j as int)) == errors_text(results@),
        decreases n - j,
    {
        let ghost srem = results@.skip(j as int);
        proof {
            lemma_first_ok(results@);
            assert(srem[0] == results@[j as int]);
            assert(srem.drop_first() =~= results@.skip(j + 1));
        }
        let ghost before = errors@;
        match &results[j] {
            Ok(_) => {
                if top_idx.is_none() {
                    top_idx = Some(j);
                    proof {
                        if first_ok(results@) < j {
                            assert(results@[first_ok(results@)] is Ok);
                        }
                    }
                }
            },
            Err(e) => {
                errors.append(e.as_str());
                proof {
                    if first_ok(results@) == j {
                        assert(results@[j as int] is Ok);
                    }
                }
            },
        }
        j = j + 1;
        proof {
            let head = match results@[j - 1] {
                Err(e) => e@,
                Ok(_) => Seq::<char>::empty(),
            };
            assert(errors@ =~= before + head);
            assert(before + (head + errors_text(results@.skip(j as int))) =~= (before + head)
                + errors_text(results@.skip(j as int)));
        }
    }
    proof {
        assert(results@.skip(n as int) =~= Seq::<FilterOutcome>::empty());
        assert(errors@ + Seq::<char>::empty() =~= errors@);
    }
    match top_idx {
        None => {
            proof {
                lemma_first_ok(results@);
            }
            Output { hit_top_filter: None, hit_filters: Vec::new(), colored: errors }
        },
        Some(ti) => {
            let mut hits: Vec<Filter> = Vec::new();
            let mut k: usize = 0;
            proof {
                assert(filters@.skip(0) =~= filters@);
                assert(results@.skip(0) =~= results@);
            }
            while k < n
                invariant
                    n == results@.len(),
                    n == filters@.len(),
                    k <= n,
                    ok_filters(filters@, results@) == hits@ + ok_filters(
                        filters@.skip(k as int),
                        results@.skip(k as int),
                    ),
                decreases n - k,
            {
                let ghost frem = filters@.skip(k as int);
                let ghost rrem = results@.skip(k as int);
                proof {
                    assert(frem[0] == filters@[k as int]);
                    assert(rrem[0] == results@[k as int]);
                    assert(frem.drop_first() =~= filters@.skip(k + 1));
                    assert(rrem.drop_first() =~= results@.skip(k + 1));
                }
                let ghost hits0 = hits@;
                let is_ok = match &results[k] {
                    Ok(_) => true,
                    Err(_) => false,
                };
                if is_ok {
                    hits.push(filters[k]);
                }
                k = k + 1;
                proof {
                    let head = if rrem[0] is Ok {
                        seq![frem[0]]
                    } else {
                        Seq::<Filter>::empty()
                    };
                    assert(hits@ =~= hits0 + head);
                    assert(hits0 + (head + ok_filters(
                        filters@.skip(k as int),
                        results@.skip(k as int),
                    )) =~= (hits0 + head) + ok_filters(
                        filters@.skip(k as int),
                        results@.skip(k as int),
                    ));
                }
            }
            proof {
                assert(filters@.skip(n as int) =~= Seq::<Filter>::empty());
                assert(results@.skip(n as int) =~= Seq::<FilterOutcome>::empty());
                assert(hits@ + Seq::<Filter>::empty() =~= hits@);
            }
            match &results[ti] {
                Ok(ri) => {
                    let m = span_tag_map(len, ri);
                    let colored = to_html_string(chars, &m);
                    Output {
                        hit_top_filter: Some(filters[ti]),
                        hit_filters: hits,
                        colored,
                    }
                },
                Err(_) => {
                    // the found index always holds a successful outcome
                    Output { hit_top_filter: None, hit_filters: hits, colored: errors }
                },
            }
        },
    }
}

} // verus!
