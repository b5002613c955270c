use pseudoscript::layout::diagram::{Diagram, FragKind, Fragment, Item, Message, MsgKind, Participant, Section};
use pseudoscript::layout::geom::{Bounds, Point, Rect};
use pseudoscript::layout::sequence::head;
use pseudoscript::layout::sequence::{layout, Metrics};
use pseudoscript::layout::text::TextMetrics;

fn p(id: &str) -> Participant {
    Participant {
        id: id.to_owned(),
        label: id.to_owned(),
        kind: "component".to_owned(),
        summary: None,
        parent_path: None,
    }
}

fn call(from: &str, to: &str, label: &str) -> Item {
    Item::Message(Message {
        from: from.to_owned(),
        to: to.to_owned(),
        kind: MsgKind::Call,
        label: label.to_owned(),
        detail: String::new(),
    })
}

fn ret(from: &str, to: &str, marker: &str) -> Item {
    Item::Message(Message {
        from: from.to_owned(),
        to: to.to_owned(),
        kind: MsgKind::Return,
        label: marker.to_owned(),
        detail: String::new(),
    })
}

#[test]
fn bounds_grows_to_enclose() {
    let mut b = Bounds::new();
    assert!(b.is_empty());
    b.add_point(10, 20);
    b.add_point(30, 5);
    assert_eq!(b.rect(), Some(Rect::new(10, 5, 20, 15)));
    assert_eq!(b.padded(2), Some(Rect::new(8, 3, 24, 19)));
}

#[test]
fn rect_edges_and_contains() {
    let r = Rect::new(0, 0, 10, 10);
    assert_eq!(r.right(), 10);
    assert_eq!(r.bottom(), 10);
    assert!(r.contains(Point { x: 5, y: 5 }));
    assert!(!r.contains(Point { x: 11, y: 5 }));
}

#[test]
fn empty_diagram_is_minimal() {
    let out = layout(&Diagram::default(), &Metrics::default());
    assert!(out.participants.is_empty());
    assert!(out.width > 0 && out.height > 0);
}

#[test]
fn component_lifeline_carries_parent_path_and_grows_card() {
    let d = Diagram {
        participants: vec![Participant {
            id: "main::Validator".to_owned(),
            label: "Validator".to_owned(),
            kind: "component".to_owned(),
            summary: Some("Checks the order is well formed before it is queued.".to_owned()),
            parent_path: Some("shop::api".to_owned()),
        }],
        items: vec![],
    };
    let out = layout(&d, &Metrics::default());
    let p = &out.participants[0];
    assert_eq!(p.parent_path.as_deref(), Some("shop::api"));
    assert!(!p.summary_lines.is_empty() && p.summary_lines.len() <= head::MAX_DESC_LINES);
    assert!(p.card.h > head::MIN_H);
    assert_eq!(p.top, Metrics::default().lifeline_top + p.card.h);
}

#[test]
fn person_lifeline_has_no_parent_path_and_keeps_floor_height() {
    let d = Diagram {
        participants: vec![Participant {
            id: "main::Customer".to_owned(),
            label: "Customer".to_owned(),
            kind: "person".to_owned(),
            summary: None,
            parent_path: None,
        }],
        items: vec![],
    };
    let out = layout(&d, &Metrics::default());
    assert_eq!(out.participants[0].parent_path, None);
    assert_eq!(out.participants[0].card.h, head::MIN_H);
}

#[test]
fn call_then_return_advances_and_numbers() {
    let d = Diagram {
        participants: vec![p("A"), p("B")],
        items: vec![call("A", "B", "Do"), ret("B", "A", "Ok")],
    };
    let out = layout(&d, &Metrics::default());
    assert_eq!(out.messages.len(), 2);
    assert_eq!(out.messages[0].step, Some(1));
    assert_eq!(out.messages[1].step, None);
    assert!(out.messages[1].y > out.messages[0].y);
}

#[test]
fn alt_fragment_splits_with_divider_between_sections() {
    let frag = Item::Fragment(Fragment {
        kind: FragKind::Alt,
        sections: vec![
            Section {
                guard: "c".to_owned(),
                body: vec![ret("B", "A", "Ok")],
            },
            Section {
                guard: String::new(),
                body: vec![ret("B", "A", "Err")],
            },
        ],
    });
    let d = Diagram {
        participants: vec![p("A"), p("B")],
        items: vec![call("A", "B", "Do"), frag],
    };
    let out = layout(&d, &Metrics::default());
    let f = &out.fragments[0];
    assert_eq!(f.dividers.len(), 1);
    assert_eq!(f.label, "c");
    assert_eq!(f.dividers[0].guard, "else");
    let ok_y = out.messages.iter().find(|m| m.label == "Ok").unwrap().y;
    let err_y = out.messages.iter().find(|m| m.label == "Err").unwrap().y;
    assert!(ok_y < f.dividers[0].y && f.dividers[0].y < err_y);
    assert!(f.rect.y <= ok_y && err_y <= f.rect.bottom());
}

#[test]
fn a_wide_label_widens_only_its_own_lane() {
    let m = Metrics::default();
    let node_w = m.node_w_min;
    let base = node_w + m.col_gutter;
    let wide = "a_very_long_descriptive_method_name_that_needs_room";
    let d = Diagram {
        participants: vec![p("A"), p("B"), p("C"), p("D")],
        items: vec![
            call("A", "B", "Do"),
            call("B", "C", wide),
            call("C", "D", "Do"),
        ],
    };
    let xs: Vec<i32> = layout(&d, &m)
        .participants
        .iter()
        .map(|q| q.lifeline_x)
        .collect();
    assert_eq!(xs[1] - xs[0], base, "A–B lane should stay at the floor");
    assert_eq!(xs[3] - xs[2], base, "C–D lane should stay at the floor");
    assert!(
        xs[2] - xs[1] >= m.text.label_width(wide),
        "B–C lane must fit the wide label"
    );
}

#[test]
fn empty_label_is_zero() {
    assert_eq!(TextMetrics::default().label_width(""), 0);
}

#[test]
fn label_width_scales_and_pads() {
    let m = TextMetrics::default();
    assert_eq!(m.label_width("Find"), 46);
}

#[test]
fn title_width_has_no_pad() {
    assert_eq!(TextMetrics::default().title_width("Check"), 40);
}

#[test]
fn wrap_desc_short_text_is_one_line_no_ellipsis() {
    let lines = TextMetrics::default().wrap_desc("hello world", 400, 2);
    assert_eq!(lines, vec!["hello world".to_owned()]);
}

#[test]
fn wrap_desc_caps_lines_and_ellipsises_overflow() {
    let m = TextMetrics::default();
    let lines = m.wrap_desc("one two three four five six seven eight nine ten", 60, 2);
    assert_eq!(lines.len(), 2);
    assert!(lines.last().is_some_and(|l| l.ends_with('\u{2026}')));
}

#[test]
fn wrap_desc_ellipsises_a_short_last_line_when_lines_are_dropped() {
    let lines = TextMetrics::default().wrap_desc("abc defghijkl", 60, 1);
    assert_eq!(lines, vec!["abc\u{2026}".to_owned()]);
}

#[test]
fn bounds_do_not_depend_on_insertion_order() {
    let pts = [(10, 20), (30, 5), (-4, 7)];
    let mut a = Bounds::new();
    for (x, y) in pts {
        a.add_point(x, y);
    }
    let mut b = Bounds::new();
    for (x, y) in pts.iter().rev() {
        b.add_point(*x, *y);
    }
    assert_eq!(a.rect(), b.rect());
    assert_eq!(a.rect(), Some(Rect::new(-4, 5, 34, 15)));
}

#[test]
fn wrapped_lines_fit_unless_a_word_is_too_long() {
    // 10 characters per line at the default metrics and 60px.
    let lines = TextMetrics::default().wrap_desc("a bb ccc dddd eeeee ffffffffffffff g", 60, 5);
    assert!(lines.len() <= 5);
    for l in &lines {
        assert!(l.chars().count() <= 10 || !l.contains(' '), "{l:?}");
    }
    assert!(lines.contains(&"ffffffffffffff".to_owned()));
}
