use coloring::frag::{Color, FragSpecs, ordered_frags};
use coloring::html::{SpanTag, SpanTagForRender, sort_tags, span_tag_map, to_html_string};
use coloring::terminal::{IncludeExclude, Mode, colored_content};
use coloring::web::{Filter, colored_inner};

fn chars_of(s: &str) -> Vec<(usize, char)> {
    s.char_indices().collect()
}

#[test]
fn frag_names_are_lowercase() {
    assert_eq!(FragSpecs::Block.name(), "block");
    assert_eq!(FragSpecs::Expr.name(), "expr");
    assert_eq!(FragSpecs::Lifetime.name(), "lifetime");
    assert_eq!(FragSpecs::Ty.name(), "ty");
    assert_eq!(FragSpecs::Vis.name(), "vis");
}

#[test]
fn painting_order_has_every_category_once() {
    let order = ordered_frags();
    assert_eq!(order.len(), 12);
    assert_eq!(order[0], FragSpecs::Item);
    assert_eq!(order[11], FragSpecs::Literal);
    for f in &order {
        assert_eq!(order.iter().filter(|g| *g == f).count(), 1);
    }
}

#[test]
fn css_names_spell_keywords_and_rgb() {
    assert_eq!(Color::Green.css_name(), "green".to_string());
    assert_eq!(Color::BlueViolet.css_name(), "blueviolet".to_string());
    assert_eq!(Color::Rgb(255, 0, 42).css_name(), "rgb(255, 0, 42)".to_string());
    assert_eq!(Color::Rgb(7, 10, 100).css_name(), "rgb(7, 10, 100)".to_string());
    assert_eq!(Color::all().len(), 13);
}

#[test]
fn into_mode_resolves_the_four_cases() {
    let ex = IncludeExclude {
        exclude_frags: Some(vec![FragSpecs::Expr]),
        include_frags: None,
    };
    assert_eq!(ex.into_mode(), Mode::Exclude(vec![FragSpecs::Expr]));
    let inc = IncludeExclude {
        exclude_frags: None,
        include_frags: Some(vec![FragSpecs::Item]),
    };
    assert_eq!(inc.into_mode(), Mode::Include(vec![FragSpecs::Item]));
    let neither = IncludeExclude { exclude_frags: None, include_frags: None };
    assert_eq!(neither.into_mode(), Mode::Exclude(vec![]));
    let both = IncludeExclude {
        exclude_frags: Some(vec![FragSpecs::Expr]),
        include_frags: Some(vec![FragSpecs::Item]),
    };
    assert_eq!(both.into_mode(), Mode::Exclude(vec![]));
}

#[test]
fn colored_content_paints_by_priority_and_skips_line_breaks() {
    let content: Vec<u8> = b"ab\nc".to_vec();
    let range_info = vec![
        (FragSpecs::Ident, vec![(0usize, 2usize)]),
        (FragSpecs::Item, vec![(0usize, 4usize)]),
    ];
    let mode = Mode::Exclude(vec![]);
    let plan = colored_content(&content, &range_info, &mode);
    assert_eq!(
        plan,
        vec![
            Some(FragSpecs::Ident),
            Some(FragSpecs::Ident),
            None,
            Some(FragSpecs::Item),
        ]
    );
}

#[test]
fn colored_content_honours_include_and_exclude() {
    let content: Vec<u8> = b"ab".to_vec();
    let range_info = vec![
        (FragSpecs::Ident, vec![(0usize, 2usize)]),
        (FragSpecs::Item, vec![(0usize, 2usize)]),
    ];
    let only_item = Mode::Include(vec![FragSpecs::Item]);
    assert_eq!(
        colored_content(&content, &range_info, &only_item),
        vec![Some(FragSpecs::Item), Some(FragSpecs::Item)]
    );
    let exclude = Mode::Exclude(vec![FragSpecs::Ident]);
    assert_eq!(
        colored_content(&content, &range_info, &exclude),
        vec![Some(FragSpecs::Item), Some(FragSpecs::Item)]
    );
}

#[test]
fn sort_puts_ends_first_and_outer_opens_first() {
    let tags = vec![
        SpanTag::Start(FragSpecs::Ident, 2),
        SpanTag::End,
        SpanTag::Start(FragSpecs::Item, 5),
        SpanTag::End,
    ];
    assert_eq!(
        sort_tags(&tags),
        vec![
            SpanTag::End,
            SpanTag::End,
            SpanTag::Start(FragSpecs::Item, 5),
            SpanTag::Start(FragSpecs::Ident, 2),
        ]
    );
}

#[test]
fn sort_keeps_equal_length_opens_in_order() {
    let tags = vec![
        SpanTag::Start(FragSpecs::Ident, 3),
        SpanTag::Start(FragSpecs::Item, 3),
    ];
    assert_eq!(
        sort_tags(&tags),
        vec![
            SpanTag::Start(FragSpecs::Ident, 3),
            SpanTag::Start(FragSpecs::Item, 3),
        ]
    );
}

#[test]
fn span_tag_map_builds_nested_stacks() {
    let ranges = vec![
        (FragSpecs::Item, vec![(0usize, 5usize)]),
        (FragSpecs::Ident, vec![(1usize, 3usize)]),
        (FragSpecs::Expr, vec![(9usize, 12usize)]),
        (FragSpecs::Block, vec![(2usize, 0usize)]),
    ];
    let map = span_tag_map(5, &ranges);
    assert_eq!(map.len(), 6);
    assert_eq!(
        map[0],
        vec![SpanTagForRender::Start(FragSpecs::Item, vec![FragSpecs::Item])]
    );
    assert_eq!(
        map[1],
        vec![SpanTagForRender::Start(
            FragSpecs::Ident,
            vec![FragSpecs::Item, FragSpecs::Ident],
        )]
    );
    assert_eq!(map[2], vec![]);
    assert_eq!(map[3], vec![SpanTagForRender::End]);
    assert_eq!(map[4], vec![]);
    assert_eq!(map[5], vec![SpanTagForRender::End]);
}

#[test]
fn to_html_string_escapes_and_nests() {
    let ranges = vec![(FragSpecs::Ident, vec![(0usize, 1usize)])];
    let map = span_tag_map(3, &ranges);
    let chars = chars_of("a<b");
    let html = to_html_string(&chars, &map);
    assert_eq!(
        html,
        "<span data-frag=\"ident\" class=\"ident\">a</span>&lt;b".to_string()
    );
}

#[test]
fn to_html_string_closes_open_ranges_at_the_end() {
    let ranges = vec![
        (FragSpecs::Item, vec![(0usize, 3usize)]),
        (FragSpecs::Expr, vec![(1usize, 3usize)]),
    ];
    let map = span_tag_map(3, &ranges);
    let chars = chars_of("x&y");
    let html = to_html_string(&chars, &map);
    let expected = "<span data-frag=\"item\" class=\"item\">x<span data-frag=\"expr\" class=\"item expr\">&amp;y</span></span>";
    assert_eq!(html, expected.to_string());
}

#[test]
fn colored_inner_picks_the_first_hit() {
    let filters = vec![Filter::File, Filter::Expr, Filter::Ident];
    let results = vec![
        Err("no file\n".to_string()),
        Ok(vec![(FragSpecs::Expr, vec![(0usize, 1usize)])]),
        Ok(vec![]),
    ];
    let chars = chars_of("z");
    let out = colored_inner(&filters, &results, &chars, 1);
    assert_eq!(out.hit_top_filter, Some(Filter::Expr));
    assert_eq!(out.hit_filters, vec![Filter::Expr, Filter::Ident]);
    assert_eq!(
        out.colored,
        "<span data-frag=\"expr\" class=\"expr\">z</span>".to_string()
    );
}

#[test]
fn colored_inner_collects_errors_when_nothing_parses() {
    let filters = vec![Filter::File, Filter::Expr];
    let results = vec![
        Err("first failure\n".to_string()),
        Err("second failure\n".to_string()),
    ];
    let chars = chars_of("z");
    let out = colored_inner(&filters, &results, &chars, 1);
    assert_eq!(out.hit_top_filter, None);
    assert_eq!(out.hit_filters, vec![]);
    assert_eq!(out.colored, "first failure\nsecond failure\n".to_string());
}

#[test]
fn selector_labels_custom_colours() {
    assert_eq!(Color::Green.label(), "green".to_string());
    assert_eq!(Color::Rgb(1, 2, 3).label(), "custom".to_string());
}

#[test]
fn first_hit_finds_the_first_success() {
    let results: Vec<coloring::web::FilterOutcome> = vec![
        Err("a".to_string()),
        Ok(vec![]),
        Ok(vec![(FragSpecs::Item, vec![(0usize, 1usize)])]),
    ];
    assert_eq!(coloring::web::first_hit(&results), Some(1));
    let none: Vec<coloring::web::FilterOutcome> = vec![Err("a".to_string())];
    assert_eq!(coloring::web::first_hit(&none), None);
}

#[test]
fn retained_entry_point_is_callable() {
    coloring::nihongo_mei_no_kansuu();
}
